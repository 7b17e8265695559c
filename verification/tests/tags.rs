use memo::tags::{normalize_tag, unique_tags};

#[test]
fn tag_validation_accepts_safe_names() {
    assert_eq!(normalize_tag("TODO").unwrap(), "todo");
    assert!(normalize_tag("../escape").is_err());
}

#[test]
fn duplicate_tags_are_removed() {
    assert_eq!(
        unique_tags(vec!["todo".into(), "todo".into(), "work".into()]),
        vec!["todo", "work"]
    );
}

#[test]
fn tag_is_trimmed_and_lowered() {
    assert_eq!(normalize_tag("  Work-Item_2.x \t").unwrap(), "work-item_2.x");
}

#[test]
fn tag_refusals_name_the_raw_value() {
    assert_eq!(normalize_tag("../escape").unwrap_err(), "invalid tag: ../escape");
    assert_eq!(normalize_tag("   ").unwrap_err(), "invalid tag:    ");
    assert!(normalize_tag("").is_err());
    assert!(normalize_tag(".").is_err());
    assert!(normalize_tag(" .. ").is_err());
    assert!(normalize_tag("a/b").is_err());
    assert!(normalize_tag("two words").is_err());
    assert!(normalize_tag("café").is_err());
    assert_eq!(normalize_tag("...").unwrap(), "...");
}

#[test]
fn normalized_tag_normalizes_to_itself() {
    for raw in ["TODO", "  MiXeD-Case ", "x.y_z"] {
        let once = normalize_tag(raw).unwrap();
        assert_eq!(normalize_tag(&once).unwrap(), once);
    }
}

#[test]
fn unique_tags_keep_first_occurrences_in_order() {
    let tags = vec!["b", "a", "b", "c", "a"]
        .into_iter()
        .map(String::from)
        .collect::<Vec<_>>();
    assert_eq!(unique_tags(tags), vec!["b", "a", "c"]);
    assert_eq!(unique_tags(Vec::new()), Vec::<String>::new());
}

#[test]
fn unique_tags_twice_is_unique_tags_once() {
    let tags = vec!["x", "y", "x", "x", "z", "y"]
        .into_iter()
        .map(String::from)
        .collect::<Vec<_>>();
    let once = unique_tags(tags);
    assert_eq!(unique_tags(once.clone()), once);
}
