use memo::cli::{parse_command, Command};

fn args(items: &[&str]) -> Vec<String> {
    items.iter().map(|s| s.to_string()).collect()
}

#[test]
fn leading_options() {
    assert!(matches!(parse_command(&args(&["--version", "x"])), Ok(Command::Version)));
    assert!(matches!(parse_command(&args(&["--help"])), Ok(Command::Help)));
    assert!(matches!(parse_command(&args(&["--check-config"])), Ok(Command::CheckConfig)));
    assert_eq!(
        parse_command(&args(&["--check-config", "x"])).unwrap_err(),
        "--check-config does not accept additional arguments"
    );
}

#[test]
fn sync_needs_message_and_path() {
    assert_eq!(
        parse_command(&args(&["--sync", "msg"])).unwrap_err(),
        "background sync requires a message and at least one path"
    );
    match parse_command(&args(&["--sync", "msg", "/a", "/b"])) {
        Ok(Command::Sync { message, paths }) => {
            assert_eq!(message, "msg");
            assert_eq!(paths, args(&["/a", "/b"]));
        }
        other => panic!("unexpected {other:?}"),
    }
}

#[test]
fn tags_in_all_forms_then_words() {
    match parse_command(&args(&["tag:TODO", "--tag", "Work", "--tag=ref", "hello", "tag:x"])) {
        Ok(Command::Record { tags, words }) => {
            assert_eq!(tags, args(&["todo", "work", "ref"]));
            assert_eq!(words, args(&["hello", "tag:x"]));
        }
        other => panic!("unexpected {other:?}"),
    }
}

#[test]
fn tag_errors() {
    assert_eq!(parse_command(&args(&["--tag"])).unwrap_err(), "--tag requires a value");
    assert_eq!(parse_command(&args(&["--tag", "a b", "m"])).unwrap_err(), "invalid tag: a b");
    assert_eq!(parse_command(&args(&["tag:..", "m"])).unwrap_err(), "invalid tag: ..");
    assert_eq!(parse_command(&args(&["tag:ok"])).unwrap_err(), "a memo message is required");
    assert_eq!(parse_command(&args(&[])).unwrap_err(), "a memo message is required");
}

#[test]
fn sync_arguments_read_back() {
    let paths = args(&["/r/memo/inbox/x", "/r/memo/todo/x"]);
    let line = memo::cli::sync_arguments("first line\nsecond", &paths);
    assert_eq!(line, args(&["--sync", "first line\nsecond", "/r/memo/inbox/x", "/r/memo/todo/x"]));
    match parse_command(&line) {
        Ok(Command::Sync { message, paths: back }) => {
            assert_eq!(message, "first line\nsecond");
            assert_eq!(back, paths);
        }
        other => panic!("unexpected {other:?}"),
    }
}
