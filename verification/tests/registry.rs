use memo::registry::register_tags;

fn strings(items: &[&str]) -> Vec<String> {
    items.iter().map(|s| s.to_string()).collect()
}

#[test]
fn new_tags_are_added_one_per_line() {
    assert_eq!(register_tags("", &strings(&["todo", "work"])).as_deref(), Some("todo\nwork\n"));
    assert_eq!(register_tags("todo\n", &strings(&["todo", "ref"])).as_deref(), Some("todo\nref\n"));
    assert_eq!(register_tags("todo", &strings(&["ref"])).as_deref(), Some("todo\nref\n"));
}

#[test]
fn known_tags_and_inbox_are_not_added() {
    assert_eq!(register_tags("todo\r\nwork\n", &strings(&["work", "todo", "inbox"])), None);
    assert_eq!(register_tags("", &strings(&["inbox"])), None);
    assert_eq!(register_tags("a\n", &Vec::new()), None);
}

#[test]
fn registering_twice_adds_nothing() {
    let tags = strings(&["x", "y"]);
    let once = register_tags("a\n", &tags).unwrap();
    assert_eq!(register_tags(&once, &tags), None);
}
