use memo::repo::GitState;
use memo::sync::{
    choose_side, commit_summary, join_path, non_empty_lines_of, push, rebase_with_auto_resolution,
    remote_and_branch, start_sync, Action, Event, Op, RebasePhase,
};

fn strings(items: &[&str]) -> Vec<String> {
    items.iter().map(|s| s.to_string()).collect()
}

fn run_args(a: &Action) -> Vec<String> {
    match &a.op {
        Op::Run(args) => args.clone(),
        _ => panic!("expected a command to run"),
    }
}

fn read_args(a: &Action) -> Vec<String> {
    match &a.op {
        Op::Read(args) => args.clone(),
        _ => panic!("expected a command to read"),
    }
}

fn state(branch: &str, upstream: Option<&str>) -> GitState {
    GitState { branch: branch.to_string(), upstream: upstream.map(String::from) }
}

fn ok() -> Event {
    Event::Output(Ok(String::new()))
}

fn failed(message: &str) -> Event {
    Event::Output(Err(message.to_string()))
}

#[test]
fn lines_as_str_lines_gives_them() {
    assert_eq!(non_empty_lines_of("a\r\n\nb\nc\r"), strings(&["a", "b", "c\r"]));
    assert_eq!(non_empty_lines_of(""), Vec::<String>::new());
    assert_eq!(non_empty_lines_of("\n\n"), Vec::<String>::new());
}

#[test]
fn upstream_names_remote_and_branch() {
    assert_eq!(remote_and_branch("origin/main", "x"), ("origin".to_string(), "main".to_string()));
    assert_eq!(remote_and_branch("up/feature/a", "x"), ("up".to_string(), "feature/a".to_string()));
    assert_eq!(remote_and_branch("main", "dev"), ("origin".to_string(), "dev".to_string()));
}

#[test]
fn commit_summary_is_first_line() {
    assert_eq!(commit_summary("first\r\nsecond"), "first");
    assert_eq!(commit_summary("only"), "only");
    assert_eq!(commit_summary(""), "entry");
    assert_eq!(commit_summary("\nlater"), "");
}

#[test]
fn push_arguments() {
    assert_eq!(push("origin", "main"), strings(&["push", "origin", "HEAD:main"]));
}

#[test]
fn joined_paths_follow_path_components() {
    let repo = strings(&["/", "home", "til"]);
    assert_eq!(join_path(&repo, "memo//inbox/./a.md"), strings(&["/", "home", "til", "memo", "inbox", "a.md"]));
    assert_eq!(join_path(&repo, "/etc/x/"), strings(&["/", "etc", "x"]));
}

#[test]
fn memo_files_keep_the_incoming_side() {
    let repo = strings(&["/", "r"]);
    let memo = vec![strings(&["/", "r", "memo", "inbox", "n.md"])];
    assert_eq!(choose_side(&repo, &memo, "memo/inbox/n.md"), "theirs");
    assert_eq!(choose_side(&repo, &memo, "README.md"), "ours");
}

#[test]
fn rebase_that_succeeds_at_once() {
    let (mut r, a) = rebase_with_auto_resolution(strings(&["/", "r"]), "origin/main", Vec::new());
    assert_eq!(run_args(&a), strings(&["rebase", "origin/main"]));
    let a = r.step(Ok(String::new()));
    assert!(matches!(a.op, Op::Finish(Ok(()))));
    assert!(matches!(r.phase, RebasePhase::Done));
}

#[test]
fn rebase_resolves_conflicts_by_side() {
    let memo = vec![strings(&["/", "r", "memo", "inbox", "n.md"])];
    let (mut r, _) = rebase_with_auto_resolution(strings(&["/", "r"]), "origin/main", memo);
    let a = r.step(Err("conflict".to_string()));
    match &a.op {
        Op::Read(args) => assert_eq!(args, &strings(&["diff", "--name-only", "--diff-filter=U"])),
        _ => panic!("expected the conflict list to be read"),
    }
    let a = r.step(Ok("memo/inbox/n.md\nREADME.md".to_string()));
    assert_eq!(run_args(&a), strings(&["checkout", "theirs", "--", "memo/inbox/n.md"]));
    let a = r.step(Ok(String::new()));
    assert_eq!(run_args(&a), strings(&["add", "--", "memo/inbox/n.md"]));
    let a = r.step(Ok(String::new()));
    assert_eq!(run_args(&a), strings(&["checkout", "ours", "--", "README.md"]));
    let a = r.step(Ok(String::new()));
    assert_eq!(run_args(&a), strings(&["add", "--", "README.md"]));
    let a = r.step(Ok(String::new()));
    assert_eq!(run_args(&a), strings(&["-c", "core.editor=true", "rebase", "--continue"]));
    let a = r.step(Ok(String::new()));
    assert!(matches!(a.op, Op::Finish(Ok(()))));
}

#[test]
fn rebase_gives_up_after_ten_rounds() {
    let (mut r, _) = rebase_with_auto_resolution(strings(&["/", "r"]), "up/x", Vec::new());
    let mut a = r.step(Err("first".to_string()));
    let mut rounds = 0;
    loop {
        match &a.op {
            Op::Read(_) => {
                rounds += 1;
                a = r.step(Ok("f".to_string()));
            }
            Op::Run(args) if args[0] == "rebase" && args[1] == "--abort" => {
                a = r.step(Ok(String::new()));
            }
            Op::Run(args) if args[0] == "-c" => {
                a = r.step(Err("still".to_string()));
            }
            Op::Run(_) => {
                a = r.step(Ok(String::new()));
            }
            Op::Finish(result) => {
                assert_eq!(result.clone().unwrap_err(), "automatic rebase resolution failed: first");
                break;
            }
            Op::Capture => panic!("no capture in a rebase"),
        }
    }
    assert_eq!(rounds, 10);
}

#[test]
fn rebase_skips_when_nothing_conflicts_and_aborts_when_skip_fails() {
    let (mut r, _) = rebase_with_auto_resolution(Vec::new(), "o/m", Vec::new());
    r.step(Err("e".to_string()));
    let a = r.step(Ok("\n".to_string()));
    assert_eq!(run_args(&a), strings(&["rebase", "--skip"]));
    let a = r.step(Err("no".to_string()));
    assert_eq!(run_args(&a), strings(&["rebase", "--abort"]));
    let a = r.step(Err("ignored".to_string()));
    match a.op {
        Op::Finish(Err(e)) => assert_eq!(e, "automatic rebase resolution failed: e"),
        _ => panic!("expected failure"),
    }
}

#[test]
fn sync_without_upstream_commits_locally() {
    let (mut s, a) = start_sync(strings(&["/", "r"]), strings(&["/r/memo/inbox/n.md"]), Vec::new(), "hello\nworld".to_string());
    assert!(matches!(a.op, Op::Capture));
    let a = s.step(Event::Captured(state("main", None)));
    assert_eq!(run_args(&a), strings(&["add", "--", "/r/memo/inbox/n.md"]));
    let a = s.step(ok());
    assert_eq!(
        run_args(&a),
        strings(&["commit", "--only", "--no-verify", "-m", "memo: hello", "--", "/r/memo/inbox/n.md"])
    );
    let a = s.step(ok());
    assert_eq!(
        a.notes,
        strings(&["memo: committed 1 file(s)", "memo: committed locally; no upstream configured, push skipped"])
    );
    assert!(matches!(a.op, Op::Finish(Ok(()))));
}

#[test]
fn sync_with_upstream_resets_commits_and_pushes() {
    let paths = strings(&["/r/memo/inbox/n.md", "/r/memo/todo/n.md"]);
    let (mut s, _) = start_sync(strings(&["/", "r"]), paths, Vec::new(), String::new());
    let a = s.step(Event::Captured(state("main", Some("origin/main"))));
    assert_eq!(run_args(&a), strings(&["fetch", "origin"]));
    let a = s.step(ok());
    assert_eq!(run_args(&a), strings(&["rebase", "--abort"]));
    let a = s.step(failed("no rebase"));
    assert_eq!(run_args(&a), strings(&["merge", "--abort"]));
    let a = s.step(failed("no merge"));
    assert_eq!(read_args(&a), strings(&["rev-list", "origin/main..HEAD"]));
    let a = s.step(Event::Output(Ok(String::new())));
    assert_eq!(read_args(&a), strings(&["status", "--porcelain", "--untracked-files=no"]));
    let a = s.step(Event::Output(Ok(String::new())));
    assert_eq!(run_args(&a), strings(&["reset", "--hard", "origin/main"]));
    let a = s.step(ok());
    assert_eq!(a.notes, strings(&["memo: synchronized origin/main (local changes reset)"]));
    assert!(matches!(a.op, Op::Capture));
    let a = s.step(Event::Captured(state("main", Some("origin/main"))));
    assert_eq!(run_args(&a)[0], "add");
    let a = s.step(ok());
    assert_eq!(run_args(&a)[4], "memo: entry");
    let a = s.step(ok());
    assert_eq!(a.notes, strings(&["memo: committed 2 file(s)"]));
    assert_eq!(run_args(&a), strings(&["push", "origin", "HEAD:main"]));
    let a = s.step(ok());
    assert_eq!(a.notes, strings(&["memo: pushed origin/main"]));
    assert!(matches!(a.op, Op::Finish(Ok(()))));
}

#[test]
fn sync_retries_a_refused_push_after_rebase() {
    let (mut s, _) = start_sync(strings(&["/", "r"]), strings(&["/r/memo/inbox/n.md"]), Vec::new(), "m".to_string());
    s.step(Event::Captured(state("main", Some("up/main"))));
    s.step(ok());
    s.step(ok());
    s.step(ok());
    s.step(ok());
    s.step(ok());
    s.step(ok());
    s.step(Event::Captured(state("main", Some("up/main"))));
    s.step(ok());
    let a = s.step(ok());
    assert_eq!(run_args(&a), strings(&["push", "up", "HEAD:main"]));
    let a = s.step(failed("rejected"));
    assert_eq!(a.notes, strings(&["memo: push raced with a remote update; fetching and rebasing before retry"]));
    assert_eq!(run_args(&a), strings(&["fetch", "up"]));
    let a = s.step(ok());
    assert_eq!(run_args(&a), strings(&["rebase", "up/main"]));
    let a = s.step(ok());
    assert_eq!(run_args(&a), strings(&["push", "up", "HEAD:main"]));
    let a = s.step(ok());
    assert_eq!(a.notes, strings(&["memo: pushed up/main after fetch/rebase"]));
    assert!(matches!(a.op, Op::Finish(Ok(()))));
}

#[test]
fn sync_stops_on_a_failed_fetch() {
    let (mut s, _) = start_sync(Vec::new(), strings(&["p"]), Vec::new(), "m".to_string());
    s.step(Event::Captured(state("main", Some("origin/main"))));
    let a = s.step(failed("offline"));
    match a.op {
        Op::Finish(Err(e)) => assert_eq!(e, "offline"),
        _ => panic!("expected failure"),
    }
}

#[test]
fn pending_commits_keep_the_branch() {
    let (mut s, _) = start_sync(Vec::new(), strings(&["p"]), Vec::new(), "m".to_string());
    s.step(Event::Captured(state("main", Some("origin/main"))));
    s.step(ok());
    s.step(ok());
    s.step(ok());
    let a = s.step(Event::Output(Ok("0123abc\n".to_string())));
    assert_eq!(a.notes, strings(&["memo: pending memo changes kept; reset to origin/main skipped"]));
    assert!(matches!(a.op, Op::Capture));
}

#[test]
fn uncommitted_changes_keep_the_branch() {
    let (mut s, _) = start_sync(Vec::new(), strings(&["p"]), Vec::new(), "m".to_string());
    s.step(Event::Captured(state("main", Some("origin/main"))));
    s.step(ok());
    s.step(ok());
    s.step(ok());
    s.step(Event::Output(Ok(String::new())));
    let a = s.step(Event::Output(Ok("A  memo/inbox/x".to_string())));
    assert_eq!(a.notes, strings(&["memo: pending memo changes kept; reset to origin/main skipped"]));
    assert!(matches!(a.op, Op::Capture));
    let a = s.step(Event::Captured(state("main", Some("origin/main"))));
    assert_eq!(run_args(&a), strings(&["add", "--", "p"]));
}
