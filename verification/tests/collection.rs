use tree_edit::{Array, Branch, Value, ValueVariant};

fn keys_of(arr: &Array) -> Vec<String> {
    arr.get_branches().key_list()
}

fn element_text(arr: &Array, i: usize) -> String {
    match arr.get_branches().branch_at(i) {
        Branch::Args(g) => {
            let v = g.get_value_by_indexes(0, 0).unwrap();
            v.as_text().unwrap().text_chars().into_iter().collect()
        }
        _ => panic!("element is not a wrapped cell"),
    }
}

#[test]
fn dense_keys_after_any_sequence() {
    let mut arr = Array::new(Value::of_u8(0));
    assert_eq!(keys_of(&arr), Vec::<String>::new());
    arr.insert(None, Value::of_u8(1));
    arr.insert(None, Value::of_u8(2));
    arr.insert(Some(0), Value::of_u8(3));
    arr.insert(Some(1), Value::of_u8(4));
    assert_eq!(keys_of(&arr), vec!["0", "1", "2", "3"]);
    arr.remove("1");
    assert_eq!(keys_of(&arr), vec!["0", "1", "2"]);
    arr.insert(Some(5), Value::of_u8(5));
    arr.remove("0");
    arr.insert(None, Value::of_u8(6));
    assert_eq!(keys_of(&arr), vec!["0", "1", "2", "3"]);
    // grow past one digit: the twelfth key renders as "11"
    for i in 0..8 {
        arr.insert(None, Value::of_u8(i));
    }
    assert_eq!(keys_of(&arr).last().unwrap(), "11");
}

#[test]
fn remove_last_of_one_returns_none() {
    let mut arr = Array::new(Value::of_u8(0));
    arr.insert(None, Value::of_u8(7));
    assert_eq!(arr.get_branches().len(), 1);
    let refocus = arr.remove("0");
    assert_eq!(refocus, None);
    assert_eq!(arr.get_branches().len(), 0);
    assert!(arr.get_branches().get("0").is_none());
}

#[test]
fn remove_middle_shifts_down() {
    let mut arr = Array::new(Value::of_u8(0));
    for i in 1..=4 {
        arr.insert(None, Value::of_u8(i));
    }
    // elements "1","2","3","4" under keys "0".."3"
    let refocus = arr.remove("1");
    assert_eq!(refocus.as_deref(), Some("1"));
    assert_eq!(keys_of(&arr), vec!["0", "1", "2"]);
    assert_eq!(element_text(&arr, 0), "1");
    // the value at the removed key now holds the old successor, and
    // everything after shifted down by one
    assert_eq!(element_text(&arr, 1), "3");
    assert_eq!(element_text(&arr, 2), "4");
}

#[test]
fn remove_of_last_key_refocuses_on_new_last() {
    let mut arr = Array::new(Value::of_u8(0));
    for i in 1..=3 {
        arr.insert(None, Value::of_u8(i));
    }
    let refocus = arr.remove("2");
    assert_eq!(refocus.as_deref(), Some("1"));
    assert_eq!(keys_of(&arr), vec!["0", "1"]);
}

#[test]
fn remove_absent_key_is_harmless() {
    let mut arr = Array::new(Value::of_u8(0));
    arr.insert(None, Value::of_u8(1));
    let refocus = arr.remove("9");
    assert_eq!(refocus.as_deref(), Some("9"));
    assert_eq!(keys_of(&arr), vec!["0"]);
}

#[test]
fn promote_then_fill_then_remove() {
    // promoting a string cell wraps it as the template of an empty
    // collection typed as an array of strings
    let promoted = Value::of_str("x").into_array();
    assert!(promoted.is_array());
    let mut arr = match promoted.var {
        ValueVariant::Struct(b) => match *b {
            Branch::Array(arr) => arr,
            _ => panic!("promotion did not produce a collection"),
        },
        _ => panic!("promotion did not produce a structural payload"),
    };
    assert_eq!(arr.get_branches().len(), 0);
    assert!(!arr.is_wrapped());

    arr.insert_default(None);
    arr.insert_default(None);
    assert_eq!(arr.get_branches().len(), 2);
    assert_eq!(keys_of(&arr), vec!["0", "1"]);
    for i in 0..2 {
        match arr.get_branches().branch_at(i) {
            Branch::Args(g) => {
                assert_eq!(g.get_names_raw(), &vec!["".to_string()]);
                assert_eq!(g.get_columns_raw(), &vec!["Value".to_string()]);
                assert_eq!(element_text(&arr, i), "x");
            }
            _ => panic!("element is not a single-cell grid"),
        }
    }

    let refocus = arr.remove("0");
    assert_eq!(refocus.as_deref(), Some("0"));
    assert_eq!(arr.get_branches().len(), 1);
    assert_eq!(keys_of(&arr), vec!["0"]);
    assert_eq!(element_text(&arr, 0), "x");
}

#[test]
fn struct_values_insert_unwrapped() {
    let inner = tree_edit::Tree::new_empty();
    let mut arr = Array::new(Value::of_bool(false));
    arr.insert(None, Value::of_tree(inner));
    match arr.get_branches().branch_at(0) {
        Branch::Tree(_) => {}
        _ => panic!("structural value should contribute its own child"),
    }
}
