use tree_edit::{Args, Value};

fn strings(v: &[&str]) -> Vec<String> {
    v.iter().map(|s| s.to_string()).collect()
}

#[test]
fn argument_it_works() {
    let args = Args::default()
        .names(strings(&["Name 1", "Name 2"]))
        .columns(strings(&["Column 1", "Column 2"]))
        .value("Name 1", "Column 2", Value::of_bool(false));

    assert_eq!(
        matches!(args.get_value("Name 1", "Column 2"), Some(value) if value.is_bool()),
        true
    );
    assert_eq!(matches!(args.get_value("Name 1", "Column 1"), None), true);
    assert_eq!(args.get_names(), strings(&["Name 1", "Name 2"]));
    assert_eq!(args.get_columns(), strings(&["Column 1", "Column 2"]));
}

#[test]
fn mod_it_works() {
    let args = Args::default()
        .names(strings(&["Name 1", "Name 2"]))
        .columns(strings(&["Column 1", "Column 2"]))
        .value("Name 1", "Column 2", Value::of_bool(false));

    assert_eq!(
        matches!(args.get_value("Name 1", "Column 2"), Some(value) if value.is_bool()),
        true
    );
    assert_eq!(matches!(args.get_value("Name 1", "Column 1"), None), true);
    assert_eq!(args.get_names(), strings(&["Name 1", "Name 2"]));
    assert_eq!(args.get_columns(), strings(&["Column 1", "Column 2"]));
}

#[test]
fn grid_rejects_unknown_labels() {
    let args = Args::new()
        .names(strings(&["A"]))
        .columns(strings(&["C1"]))
        .value("A", "Nope", Value::of_bool(true))
        .value("Nope", "C1", Value::of_bool(true));
    assert!(args.get_value("A", "C1").is_none());
    assert!(args.get_value("A", "Nope").is_none());
}

#[test]
fn grid_overwrites_in_place() {
    let args = Args::new()
        .names(strings(&["A"]))
        .columns(strings(&["C1"]))
        .value("A", "C1", Value::of_bool(true))
        .value("A", "C1", Value::of_u8(9));
    let v = args.get_value("A", "C1").unwrap();
    assert!(v.is_number());
    let text: String = v.as_text().unwrap().text_chars().into_iter().collect();
    assert_eq!(text, "9");
}

#[test]
fn grid_lookup_by_indexes_and_cindex() {
    let args = Args::new()
        .names(strings(&["A", "B"]))
        .columns(strings(&["C1", "C2"]))
        .value("B", "C2", Value::of_bool(true));
    assert!(args.get_value_by_indexes(1, 1).is_some());
    assert!(args.get_value_by_indexes(0, 0).is_none());
    assert!(args.get_value_by_cindex("B", 1).is_some());
    assert!(args.get_value_by_cindex("B", 0).is_none());
    assert!(args.get_value_by_cindex("C", 1).is_none());
}
