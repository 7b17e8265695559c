use memo::entry::{
    configured_environment, entry_date, entry_paths, format_entry, git_context, hex_lower,
    join_texts, metadata_environment, metadata_source, needs_hostname, note_id, note_text,
    plan_entry, prepare_entry, yaml_quote, MetadataSource,
};

fn strings(items: &[&str]) -> Vec<String> {
    items.iter().map(|s| s.to_string()).collect()
}

#[test]
fn format_entry_writes_front_matter_as_documented() {
    let git = vec![
        ("root".to_string(), "/home/niwashita/workspace".to_string()),
        ("branch".to_string(), "main".to_string()),
        ("head".to_string(), "abc1234".to_string()),
    ];
    let text = format_entry(
        "2026-08-22T10:30:00+09:00",
        "gpu003",
        "todo",
        "/home/niwashita/workspace",
        Some(&git),
        "p(x_t+1|x_t) ...",
    );
    assert_eq!(
        text,
        "---\ntimestamp: \"2026-08-22T10:30:00+09:00\"\nenvironment: \"gpu003\"\ntags:\n  - \"todo\"\ncwd: \"/home/niwashita/workspace\"\ngit:\n  root: \"/home/niwashita/workspace\"\n  branch: \"main\"\n  head: \"abc1234\"\n---\n\np(x_t+1|x_t) ...\n"
    );
}

#[test]
fn format_entry_without_git_or_tags() {
    let text = format_entry("T", "e", "", "/w", None, "m");
    assert_eq!(
        text,
        "---\ntimestamp: \"T\"\nenvironment: \"e\"\ntags: []\ncwd: \"/w\"\n---\n\nm\n"
    );
    let two = format_entry("T", "e", "a,b", "/w", None, "m");
    assert!(two.contains("tags:\n  - \"a\"\n  - \"b\"\ncwd"));
}

#[test]
fn metadata_is_apart_from_the_body() {
    let one = format_entry("T", "e", "x", "/w", None, "first body");
    let two = format_entry("T", "e", "x", "/w", None, "other\ntext");
    let head_one = one.strip_suffix("first body\n").unwrap();
    let head_two = two.strip_suffix("other\ntext\n").unwrap();
    assert_eq!(head_one, head_two);
    assert!(head_one.ends_with("---\n\n"));
}

#[test]
fn git_block_goes_before_the_closing_marker() {
    let git = vec![("root".to_string(), "/r".to_string()), ("head".to_string(), "f".to_string())];
    let with = format_entry("T", "e", "", "/w", Some(&git), "m");
    let without = format_entry("T", "e", "", "/w", None, "m");
    assert_eq!(with, without.replace("\n---\n\nm", "\ngit:\n  root: \"/r\"\n  head: \"f\"\n---\n\nm"));
}

#[test]
fn front_matter_holds_each_quoted_value() {
    let text = format_entry("2026\"T", "e\\x", "a,b", "/w d", None, "m");
    for value in ["2026\"T", "e\\x", "a", "b", "/w d"] {
        assert!(text.contains(&yaml_quote(value)));
    }
}

#[test]
fn yaml_quote_escapes() {
    assert_eq!(yaml_quote("plain"), "\"plain\"");
    assert_eq!(yaml_quote("a\"b\\c\nd\te"), "\"a\\\"b\\\\c\\nd\\te\"");
    assert_eq!(yaml_quote("\u{0}\u{1b}\u{7f}é"), "\"\\x00\\x1b\\x7fé\"");
}

#[test]
fn note_text_wraps_a_script_front_matter() {
    assert_eq!(note_text("host: x\nuser: y", "body"), "---\nhost: x\nuser: y\n---\n\nbody\n");
}

#[test]
fn git_context_reports_detached_head() {
    let git = git_context(" /repo ", "  ", Some("f00\n"));
    assert_eq!(
        git,
        vec![
            ("root".to_string(), "/repo".to_string()),
            ("branch".to_string(), "detached".to_string()),
            ("head".to_string(), "f00".to_string()),
        ]
    );
}

#[test]
fn git_context_without_a_commit_has_no_head() {
    let git = git_context("/repo\n", "main\n", None);
    assert_eq!(
        git,
        vec![("root".to_string(), "/repo".to_string()), ("branch".to_string(), "main".to_string())]
    );
}

#[test]
fn environment_sources_in_order() {
    assert_eq!(configured_environment(Some("lab box"), Some("m"), Some("w"), Some("h")), "lab_box");
    assert_eq!(configured_environment(None, Some(" env.1 "), Some("w"), None), "env.1");
    assert_eq!(configured_environment(None, None, Some("Ubuntu"), None), "wsl-Ubuntu");
    assert_eq!(configured_environment(None, None, None, Some("host-a")), "host-a");
    assert_eq!(configured_environment(None, None, None, None), "unknown-environment");
    assert_eq!(configured_environment(Some("  "), None, None, None), "unknown-environment");
    assert_eq!(configured_environment(Some("é/x"), None, None, None), "__x");
}

#[test]
fn hostname_needed_only_without_other_sources() {
    assert!(needs_hostname(None, None, None));
    assert!(!needs_hostname(Some(""), None, None));
    assert!(!needs_hostname(None, None, Some("d")));
}

#[test]
fn entry_date_is_before_the_t() {
    assert_eq!(entry_date("2026-08-22T10:30:00+09:00").as_deref(), Some("2026-08-22"));
    assert_eq!(entry_date("no time"), None);
    assert_eq!(entry_date("T"), Some(String::new()));
}

#[test]
fn join_texts_puts_separators_between() {
    assert_eq!(join_texts(&strings(&["a", "b", "c"]), " "), "a b c");
    assert_eq!(join_texts(&strings(&["solo"]), ","), "solo");
    assert_eq!(join_texts(&Vec::new(), ","), "");
}

#[test]
fn note_id_is_the_sha256_of_the_text() {
    assert_eq!(note_id(""), "e3b0c44298fc1c149afbf4c8996fb92427ae41e4649b934ca495991b7852b855");
    assert_eq!(note_id("abc"), "ba7816bf8f01cfea414140de5dae2223b00361a396177a9cb410ff61f20015ad");
    assert_eq!(hex_lower(&vec![0x00, 0x0f, 0xa0, 0xff]), "000fa0ff");
}

#[test]
fn entry_paths_mirror_tags_but_not_inbox() {
    let paths = entry_paths(&strings(&["todo", "inbox", "work"]), "abc");
    assert_eq!(
        paths,
        vec![strings(&["inbox", "abc"]), strings(&["todo", "abc"]), strings(&["work", "abc"])]
    );
}

#[test]
fn plan_entry_names_copies_by_content() {
    let draft = prepare_entry(strings(&["todo", "todo", "inbox"]), &strings(&["fix", "the", "thing"]));
    assert_eq!(draft.message, "fix the thing");
    assert_eq!(draft.tags_text, "todo,inbox");
    let plan = plan_entry(&draft, "2026-01-02T03:04:05+00:00", "box", "/tmp", None, None);
    assert_eq!(
        plan.content,
        "---\ntimestamp: \"2026-01-02T03:04:05+00:00\"\nenvironment: \"box\"\ntags:\n  - \"todo\"\n  - \"inbox\"\ncwd: \"/tmp\"\n---\n\nfix the thing\n"
    );
    assert_eq!(plan.id, note_id(&plan.content));
    assert_eq!(plan.id.len(), 64);
    assert_eq!(plan.paths, vec![strings(&["inbox", &plan.id]), strings(&["todo", &plan.id])]);
}

#[test]
fn plan_entry_uses_a_script_front_matter() {
    let draft = prepare_entry(strings(&["a"]), &strings(&["m"]));
    let plan = plan_entry(&draft, "T", "e", "/w", None, Some("custom: 1"));
    assert_eq!(plan.content, "---\ncustom: 1\n---\n\nm\n");
    assert_eq!(plan.id, note_id("---\ncustom: 1\n---\n\nm\n"));
}

#[test]
fn different_notes_get_different_names_and_copies_share_one() {
    let draft = prepare_entry(strings(&["a", "b", "a", "c"]), &strings(&["m"]));
    let one = plan_entry(&draft, "xTy", "e", "/", None, None);
    let two = plan_entry(&draft, "xTz", "e", "/", None, None);
    assert_ne!(one.id, two.id);
    assert_eq!(one.paths.len(), 4);
    for (i, p) in one.paths.iter().enumerate() {
        assert_eq!(p[1], one.id);
        for q in &one.paths[i + 1..] {
            assert_ne!(p, q);
        }
    }
}

#[test]
fn metadata_script_context() {
    let vars = metadata_environment("todo,work", "hello", "/w", Some("gpu"));
    assert_eq!(
        vars,
        vec![
            ("MEMO_TAGS".to_string(), "todo,work".to_string()),
            ("MEMO_MESSAGE".to_string(), "hello".to_string()),
            ("MEMO_CWD".to_string(), "/w".to_string()),
            ("MEMO_ENVIRONMENT".to_string(), "gpu".to_string()),
        ]
    );
    assert_eq!(metadata_environment("", "m", "/", None).len(), 3);
}

#[test]
fn metadata_source_order() {
    assert_eq!(metadata_source(true, true), MetadataSource::Configured);
    assert_eq!(metadata_source(false, true), MetadataSource::DefaultCollector);
    assert_eq!(metadata_source(false, false), MetadataSource::BuiltIn);
}
