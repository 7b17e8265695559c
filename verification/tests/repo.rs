use memo::repo::{
    capture_state, command_failure, lock_step, sync_error_path, sync_error_text, validate_repo,
    LockAttempt, LockStep, RepoCheck, LOCK_ATTEMPTS,
};

#[test]
fn capture_state_trims_and_drops_empty_upstream() {
    let s = capture_state(Some(" main\n"), Some("origin/main\n"));
    assert_eq!(s.branch, "main");
    assert_eq!(s.upstream.as_deref(), Some("origin/main"));
    let s = capture_state(None, Some("  "));
    assert_eq!(s.branch, "");
    assert_eq!(s.upstream, None);
    let s = capture_state(Some("dev"), None);
    assert_eq!(s.upstream, None);
}

#[test]
fn validate_repo_verdicts() {
    assert!(matches!(validate_repo(b"/a", b"/b", None, None), RepoCheck::NotGitRoot));
    assert!(matches!(validate_repo(b"/a", b"/b", Some("u"), Some("u")), RepoCheck::NotGitRoot));
    assert!(matches!(validate_repo(b"/a", b"/a", None, None), RepoCheck::Valid));
    assert!(matches!(validate_repo(b"/a", b"/a", Some("u"), None), RepoCheck::NeedOrigin));
    assert!(matches!(validate_repo(b"/a", b"/a", Some("u"), Some(" u\n")), RepoCheck::Valid));
    match validate_repo(b"/a", b"/a", Some("u"), Some("v\n")) {
        RepoCheck::OriginMismatch(actual) => assert_eq!(actual, "v"),
        other => panic!("unexpected {other:?}"),
    }
}

#[test]
fn command_failure_prefers_error_output() {
    assert_eq!(command_failure("git", "  fatal: no\n", "exit status: 128"), "git: fatal: no");
    assert_eq!(command_failure("command", " \n", "exit status: 1"), "command exited with status exit status: 1");
}

#[test]
fn sync_error_file_and_text() {
    let repo = vec!["/".to_string(), "home".to_string(), "til".to_string()];
    assert_eq!(
        sync_error_path(&repo),
        vec!["/".to_string(), "home".to_string(), "til".to_string(), ".memo-sync-error.log".to_string()]
    );
    assert_eq!(sync_error_text("boom"), "memo background sync error\nboom\n");
}

#[test]
fn lock_is_tried_six_hundred_times() {
    assert_eq!(LOCK_ATTEMPTS, 600);
    assert_eq!(lock_step(0, LockAttempt::Created), LockStep::Acquired);
    assert_eq!(lock_step(0, LockAttempt::Busy), LockStep::Retry);
    assert_eq!(lock_step(598, LockAttempt::Busy), LockStep::Retry);
    assert_eq!(lock_step(599, LockAttempt::Busy), LockStep::WaitThenGiveUp);
    assert_eq!(lock_step(3, LockAttempt::Failed), LockStep::Fail);
}
