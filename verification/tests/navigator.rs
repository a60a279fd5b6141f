use tree_edit::{Args, Branch, Event, Node, NumberType, TreeEdit, Value};

fn strings(v: &[&str]) -> Vec<String> {
    v.iter().map(|s| s.to_string()).collect()
}

fn last_label(edit: &TreeEdit) -> String {
    edit.position().last().unwrap().text().clone()
}

fn cell_text(edit: &TreeEdit, tab: &str, row: usize, col: usize) -> String {
    let branch = edit.get_tabs().get(tab).unwrap();
    let args = branch.as_args().unwrap();
    let v = args.get_value_by_indexes(row, col).unwrap();
    v.as_text().unwrap().text_chars().into_iter().collect()
}

fn grid_ab() -> Args {
    Args::new()
        .names(strings(&["A", "B"]))
        .columns(strings(&["C1", "C2"]))
        .value("A", "C2", Value::of_bool(false))
}

#[test]
fn tab_seeds_stack_with_two_frames() {
    let edit = TreeEdit::new("demo").tab("Tab 1".to_string(), Branch::Args(grid_ab()));
    let pos = edit.position();
    assert_eq!(pos.len(), 2);
    assert_eq!(pos[0].text(), "Tab 1");
    match &pos[1] {
        Node::Args(name, col) => {
            assert_eq!(name, "A");
            assert_eq!(*col, 0);
        }
        _ => panic!("a grid tab seeds a grid selection"),
    }
}

#[test]
fn sparse_grid_lookups() {
    let args = grid_ab();
    assert!(args.get_value("A", "C1").is_none());
    let v = args.get_value("A", "C2").unwrap();
    assert_eq!(v.as_bool(), Some(&false));
}

#[test]
fn next_item_steps_and_wraps() {
    let mut edit = TreeEdit::new("demo").tab("Tab 1".to_string(), Branch::Args(grid_ab()));
    assert_eq!(last_label(&edit), "A");
    edit.transition(Event::NextItem);
    assert_eq!(last_label(&edit), "B");
    edit.transition(Event::NextItem);
    assert_eq!(last_label(&edit), "A");

    // with a single row there is nowhere to go: it wraps to itself
    let one_row = Args::new()
        .names(strings(&["A"]))
        .columns(strings(&["C1"]))
        .value("A", "C1", Value::of_bool(false));
    let mut single = TreeEdit::new("demo").tab("Tab 1".to_string(), Branch::Args(one_row));
    single.transition(Event::NextItem);
    assert_eq!(last_label(&single), "A");
}

#[test]
fn previous_item_stops_at_first() {
    let mut edit = TreeEdit::new("demo").tab("Tab 1".to_string(), Branch::Args(grid_ab()));
    edit.transition(Event::PreviousItem);
    assert_eq!(last_label(&edit), "A");
    edit.transition(Event::NextItem);
    edit.transition(Event::PreviousItem);
    assert_eq!(last_label(&edit), "A");
}

#[test]
fn tabs_cycle_both_ways() {
    let mut edit = TreeEdit::new("demo")
        .tab("Tab 1".to_string(), Branch::Args(grid_ab()))
        .tab("Tab 2".to_string(), Branch::Args(grid_ab()));
    assert_eq!(edit.position()[0].text(), "Tab 1");
    edit.transition(Event::NextTab);
    assert_eq!(edit.position()[0].text(), "Tab 2");
    edit.transition(Event::NextTab);
    assert_eq!(edit.position()[0].text(), "Tab 1");
    edit.transition(Event::PreviousTab);
    assert_eq!(edit.position()[0].text(), "Tab 2");
    assert_eq!(edit.get_index_tab(), Some(1));
}

#[test]
fn toggle_bool_flips_and_keeps_stack() {
    let args = Args::new()
        .names(strings(&["A"]))
        .columns(strings(&["C1"]))
        .value("A", "C1", Value::of_bool(false));
    let mut edit = TreeEdit::new("demo").tab("Tab 1".to_string(), Branch::Args(args));
    let depth = edit.position().len();

    edit.transition(Event::Enter);
    assert_eq!(edit.position().len(), depth);
    assert!(!edit.in_input_mode());
    {
        let branch = edit.get_tabs().get("Tab 1").unwrap();
        let v = branch.as_args().unwrap().get_value_by_indexes(0, 0).unwrap();
        assert_eq!(v.as_bool(), Some(&true));
    }

    edit.transition(Event::Enter);
    assert_eq!(edit.position().len(), depth);
    let branch = edit.get_tabs().get("Tab 1").unwrap();
    let v = branch.as_args().unwrap().get_value_by_indexes(0, 0).unwrap();
    assert_eq!(v.as_bool(), Some(&false));
}

#[test]
fn cancel_restores_pre_edit_text() {
    let args = Args::new()
        .names(strings(&["A"]))
        .columns(strings(&["C1"]))
        .value("A", "C1", Value::of_str("keep me"));
    let mut edit = TreeEdit::new("demo").tab("Tab 1".to_string(), Branch::Args(args));

    edit.transition(Event::Enter);
    assert!(edit.in_input_mode());
    edit.transition(Event::Char('z'));
    edit.transition(Event::Backspace);
    edit.transition(Event::Char('q'));
    edit.transition(Event::Char('!'));
    assert_eq!(cell_text(&edit, "Tab 1", 0, 0), "keep meq!");
    edit.transition(Event::Cancel);
    assert!(!edit.in_input_mode());
    assert_eq!(cell_text(&edit, "Tab 1", 0, 0), "keep me");
}

#[test]
fn commit_requires_valid_text() {
    // a U8-typed cell whose prior content is "x"
    let args = Args::new()
        .names(strings(&["A"]))
        .columns(strings(&["C1"]))
        .value("A", "C1", Value::of_number(NumberType::U8, vec!['x']));
    let mut edit = TreeEdit::new("demo").tab("Tab 1".to_string(), Branch::Args(args));

    edit.transition(Event::Enter);
    assert!(edit.in_input_mode());
    // "x" does not parse as u8: Enter must not commit
    edit.transition(Event::Enter);
    assert!(edit.in_input_mode());
    // delete the "x", type "7", and commit
    edit.transition(Event::Backspace);
    edit.transition(Event::Char('7'));
    edit.transition(Event::Enter);
    assert!(!edit.in_input_mode());
    assert_eq!(cell_text(&edit, "Tab 1", 0, 0), "7");
}

#[test]
fn editing_consumes_navigation_events() {
    let args = Args::new()
        .names(strings(&["A", "B"]))
        .columns(strings(&["C1"]))
        .value("A", "C1", Value::of_str("text"));
    let mut edit = TreeEdit::new("demo").tab("Tab 1".to_string(), Branch::Args(args));
    edit.transition(Event::Enter);
    assert!(edit.in_input_mode());
    let depth = edit.position().len();
    edit.transition(Event::NextItem);
    edit.transition(Event::NextTab);
    edit.transition(Event::NextLevel);
    edit.transition(Event::PreviousLevel);
    assert!(edit.in_input_mode());
    assert_eq!(edit.position().len(), depth);
    assert_eq!(last_label(&edit), "A");
}

#[test]
fn enter_on_collection_appends_default() {
    let args = Args::new()
        .names(strings(&["A"]))
        .columns(strings(&["C1"]))
        .value("A", "C1", Value::of_str("x").into_array());
    let mut edit = TreeEdit::new("demo").tab("Tab 1".to_string(), Branch::Args(args));

    edit.transition(Event::Enter);
    edit.transition(Event::Enter);
    let branch = edit.get_tabs().get("Tab 1").unwrap();
    let v = branch.as_args().unwrap().get_value_by_indexes(0, 0).unwrap();
    let arr = v.as_array().unwrap();
    assert_eq!(arr.get_branches().key_list(), vec!["0", "1"]);
    assert_eq!(edit.position().len(), 2);
}

#[test]
fn delete_removes_element_and_refocuses() {
    let args = Args::new()
        .names(strings(&["A"]))
        .columns(strings(&["C1"]))
        .value("A", "C1", Value::of_str("x").into_array());
    let mut edit = TreeEdit::new("demo").tab("Tab 1".to_string(), Branch::Args(args));

    // append two elements, then descend into the collection
    edit.transition(Event::Enter);
    edit.transition(Event::Enter);
    edit.transition(Event::NextLevel);
    assert_eq!(edit.position().len(), 3);
    assert_eq!(last_label(&edit), "0");

    // removing "0" refocuses on the renumbered successor, still "0"
    edit.transition(Event::Delete);
    assert_eq!(edit.position().len(), 3);
    assert_eq!(last_label(&edit), "0");
    {
        let branch = edit.get_tabs().get("Tab 1").unwrap();
        let v = branch.as_args().unwrap().get_value_by_indexes(0, 0).unwrap();
        assert_eq!(v.as_array().unwrap().get_branches().len(), 1);
    }

    // removing the last element pops the frame that pointed into the
    // collection
    edit.transition(Event::Delete);
    assert_eq!(edit.position().len(), 2);
    let branch = edit.get_tabs().get("Tab 1").unwrap();
    let v = branch.as_args().unwrap().get_value_by_indexes(0, 0).unwrap();
    assert_eq!(v.as_array().unwrap().get_branches().len(), 0);
}

#[test]
fn lateral_column_moves_clamp() {
    let args = Args::new()
        .names(strings(&["A"]))
        .columns(strings(&["C1", "C2"]))
        .value("A", "C1", Value::of_bool(false))
        .value("A", "C2", Value::of_bool(true));
    let mut edit = TreeEdit::new("demo").tab("Tab 1".to_string(), Branch::Args(args));

    let col_of = |e: &TreeEdit| match e.position().last().unwrap() {
        Node::Args(_, c) => *c,
        _ => panic!("expected a grid selection"),
    };
    assert_eq!(col_of(&edit), 0);
    edit.transition(Event::NextLevel);
    assert_eq!(col_of(&edit), 1);
    edit.transition(Event::NextLevel);
    assert_eq!(col_of(&edit), 1);
    edit.transition(Event::PreviousLevel);
    assert_eq!(col_of(&edit), 0);
    // at column 0 and depth 2, ascending is a no-op by design
    edit.transition(Event::PreviousLevel);
    assert_eq!(edit.position().len(), 2);
    assert_eq!(col_of(&edit), 0);
}

#[test]
fn descend_into_nested_group_and_back() {
    let inner = Args::new()
        .names(strings(&["X"]))
        .columns(strings(&["V"]))
        .value("X", "V", Value::of_bool(true));
    let tree = tree_edit::Tree::new_empty().branch("leaf".to_string(), Branch::Args(inner));
    let mut edit = TreeEdit::new("demo").tab("Tab 1".to_string(), Branch::Tree(tree));

    assert_eq!(edit.position().len(), 2);
    assert_eq!(last_label(&edit), "leaf");
    edit.transition(Event::NextLevel);
    assert_eq!(edit.position().len(), 3);
    assert_eq!(last_label(&edit), "X");
    edit.transition(Event::PreviousLevel);
    assert_eq!(edit.position().len(), 2);
    assert_eq!(last_label(&edit), "leaf");
}

#[test]
fn empty_children_are_not_entered() {
    let tree = tree_edit::Tree::new_empty().branch(
        "empty".to_string(),
        Branch::Tree(tree_edit::Tree::new_empty()),
    );
    let mut edit = TreeEdit::new("demo").tab("Tab 1".to_string(), Branch::Tree(tree));
    assert_eq!(edit.position().len(), 2);
    edit.transition(Event::NextLevel);
    assert_eq!(edit.position().len(), 2);
}
