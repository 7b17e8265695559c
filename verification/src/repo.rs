//! The notes repository: whether it may be used, the branch state Git
//! reports, and how a failed command or a failed synchronisation is told.
use vstd::prelude::*;
use crate::entry::opt_view;
use crate::tags::texts;
use crate::text::{trim, trim_seq};

verus! {

broadcast use vstd::string::group_string_axioms;

/// The current branch and its upstream, as Git reports them.
#[derive(Debug)]
pub struct GitState {
    /// The current branch; empty where there is none.
    pub branch: String,
    /// The upstream of the current branch, such as `origin/main`.
    pub upstream: Option<String>,
}

/// The branch read from the output of `git symbolic-ref --quiet --short
/// HEAD`: the trimmed output, or empty where the command failed.
pub open spec fn branch_from(output: Option<Seq<char>>) -> Seq<char> {
    match output {
        Some(t) => trim_seq(t),
        None => Seq::empty(),
    }
}

/// The upstream read from the output of `git rev-parse --abbrev-ref
/// --symbolic-full-name @{upstream}`: the trimmed output, where the command
/// succeeded and it is not empty.
pub open spec fn upstream_from(output: Option<Seq<char>>) -> Option<Seq<char>> {
    match output {
        Some(t) => if trim_seq(t).len() > 0 {
            Some(trim_seq(t))
        } else {
            None
        },
        None => None,
    }
}

/// The view of an optional string.
pub open spec fn opt_string_view(o: Option<String>) -> Option<Seq<char>> {
    match o {
        Some(s) => Some(s@),
        None => None,
    }
}

/// The branch state, from the outputs of the two commands that report it
/// (`None` for a command that failed).
pub fn capture_state(branch_output: Option<&str>, upstream_output: Option<&str>) -> (r: GitState)
    ensures
        r.branch@ == branch_from(opt_view(branch_output)),
        opt_string_view(r.upstream) == upstream_from(opt_view(upstream_output)),
{
    let branch = match branch_output {
        Some(t) => trim(t),
        None => String::new(),
    };
    let upstream = match upstream_output {
        Some(t) => {
            let u = trim(t);
            if u.as_str().is_empty() {
                None
            } else {
                Some(u)
            }
        },
        None => None,
    };
    GitState { branch, upstream }
}

/// The verdict on a notes repository.
#[derive(Debug)]
pub enum RepoCheck {
    /// The repository may be used.
    Valid,
    /// The directory is not the root of its Git work tree.
    NotGitRoot,
    /// The URL of `origin` is needed to decide.
    NeedOrigin,
    /// `origin` points elsewhere than configured: its trimmed URL.
    OriginMismatch(String),
}

/// What a `RepoCheck` holds.
pub enum RepoCheckView {
    Valid,
    NotGitRoot,
    NeedOrigin,
    OriginMismatch(Seq<char>),
}

impl View for RepoCheck {
    type V = RepoCheckView;

    open spec fn view(&self) -> RepoCheckView {
        match self {
            RepoCheck::Valid => RepoCheckView::Valid,
            RepoCheck::NotGitRoot => RepoCheckView::NotGitRoot,
            RepoCheck::NeedOrigin => RepoCheckView::NeedOrigin,
            RepoCheck::OriginMismatch(s) => RepoCheckView::OriginMismatch(s@),
        }
    }
}

/// The verdict on a repository whose canonical directory has the bytes
/// `root`, whose work tree's canonical root has the bytes `git_root` (equal
/// bytes of canonical paths being the same path), which is configured to have
/// the remote `expected` (where set), and whose `origin` URL is `origin`
/// (where read).
pub open spec fn repo_verdict(
    root: Seq<u8>,
    git_root: Seq<u8>,
    expected: Option<Seq<char>>,
    origin: Option<Seq<char>>,
) -> RepoCheckView {
    if root != git_root {
        RepoCheckView::NotGitRoot
    } else {
        match expected {
            None => RepoCheckView::Valid,
            Some(e) => match origin {
                None => RepoCheckView::NeedOrigin,
                Some(o) => if trim_seq(o) == e {
                    RepoCheckView::Valid
                } else {
                    RepoCheckView::OriginMismatch(trim_seq(o))
                },
            },
        }
    }
}

/// Decides whether the notes repository may be used: its directory must be
/// the root of its Git work tree, and where a remote is configured, `origin`
/// must point to it. The URL of `origin` is asked for (`NeedOrigin`) only
/// where the decision depends on it.
pub fn validate_repo(
    root: &[u8],
    git_root: &[u8],
    expected: Option<&str>,
    origin: Option<&str>,
) -> (r: RepoCheck)
    ensures
        r@ == repo_verdict(root@, git_root@, opt_view(expected), opt_view(origin)),
{
    if !same_bytes(root, git_root) {
        return RepoCheck::NotGitRoot;
    }
    match expected {
        None => RepoCheck::Valid,
        Some(e) => match origin {
            None => RepoCheck::NeedOrigin,
            Some(o) => {
                let t = trim(o);
                let tv = crate::text::chars_of(t.as_str());
                let ev = crate::text::chars_of(e);
                if same_chars(&tv, &ev) {
                    RepoCheck::Valid
                } else {
                    RepoCheck::OriginMismatch(t)
                }
            },
        },
    }
}

/// Whether two byte strings are equal.
fn same_bytes(a: &[u8], b: &[u8]) -> (r: bool)
    ensures
        r == (a@ == b@),
{
    if a.len() != b.len() {
        return false;
    }
    let mut k: usize = 0;
    while k < a.len()
        invariant
            k <= a@.len() == b@.len(),
            forall|i: int| 0 <= i < k ==> a@[i] == b@[i],
        decreases a@.len() - k,
    {
        if a[k] != b[k] {
            return false;
        }
        k = k + 1;
    }
    assert(a@ =~= b@);
    true
}

/// Whether two character vectors are equal.
fn same_chars(a: &Vec<char>, b: &Vec<char>) -> (r: bool)
    ensures
        r == (a@ == b@),
{
    if a.len() != b.len() {
        return false;
    }
    let mut k: usize = 0;
    while k < a.len()
        invariant
            k <= a@.len() == b@.len(),
            forall|i: int| 0 <= i < k ==> a@[i] == b@[i],
        decreases a@.len() - k,
    {
        if a[k] != b[k] {
            return false;
        }
        k = k + 1;
    }
    assert(a@ =~= b@);
    true
}

/// The message of a command that failed: its trimmed error output after the
/// program's name, or, where that is empty, its exit status.
pub open spec fn failure_text(program: Seq<char>, stderr: Seq<char>, status: Seq<char>) -> Seq<
    char,
> {
    if trim_seq(stderr).len() == 0 {
        program + " exited with status "@ + status
    } else {
        program + ": "@ + trim_seq(stderr)
    }
}

/// Tells why a command failed, from the program's name, its error output
/// and its exit status as text.
pub fn command_failure(program: &str, stderr: &str, status: &str) -> (r: String)
    ensures
        r@ == failure_text(program@, stderr@, status@),
{
    let t = trim(stderr);
    let mut r = String::from_str(program);
    if t.as_str().is_empty() {
        r.append(" exited with status ");
        r.append(status);
    } else {
        r.append(": ");
        r.append(t.as_str());
    }
    r
}

/// The name of the file, at the root of the repository, that records the
/// error of the last failed synchronisation.
pub open spec fn error_log_name() -> Seq<char> {
    ".memo-sync-error.log"@
}

/// The components of the file that records a failed synchronisation, in the
/// repository with components `repo`.
pub fn sync_error_path(repo: &Vec<String>) -> (r: Vec<String>)
    ensures
        texts(r@) == texts(repo@).push(error_log_name()),
{
    let mut r = repo.clone();
    assert(r@ == repo@);
    let ghost before = r@;
    r.push(String::from_str(".memo-sync-error.log"));
    assert(texts(r@) =~= texts(before).push(error_log_name()));
    r
}

/// The text of the file that records a failed synchronisation.
pub fn sync_error_text(error: &str) -> (r: String)
    ensures
        r@ == "memo background sync error\n"@ + error@ + "\n"@,
{
    let mut r = String::from_str("memo background sync error\n");
    r.append(error);
    r.append("\n");
    r
}


/// How many times the synchronisation lock is tried, a tenth of a second
/// apart, before giving up.
pub const LOCK_ATTEMPTS: u32 = 600;

/// What one try to take the synchronisation lock found.
#[derive(Debug, PartialEq, Eq)]
pub enum LockAttempt {
    /// The lock directory was created: the lock is taken.
    Created,
    /// The lock directory already exists: another synchronisation holds it.
    Busy,
    /// Creating the lock directory failed otherwise.
    Failed,
}

/// What to do after a try to take the lock.
#[derive(Debug, PartialEq, Eq)]
pub enum LockStep {
    /// The lock is ours.
    Acquired,
    /// Wait, then try again.
    Retry,
    /// Wait, then give up: the lock stayed busy.
    WaitThenGiveUp,
    /// Give up now: the lock cannot be created.
    Fail,
}

/// What follows try number `attempt` (from 0) to take the lock.
pub open spec fn lock_next(attempt: int, found: LockAttempt) -> LockStep {
    match found {
        LockAttempt::Created => LockStep::Acquired,
        LockAttempt::Failed => LockStep::Fail,
        LockAttempt::Busy => if attempt + 1 < LOCK_ATTEMPTS {
            LockStep::Retry
        } else {
            LockStep::WaitThenGiveUp
        },
    }
}

/// Law: a busy lock is tried again after each of the first 599 tries and
/// given up after a last wait at the 600th; a created lock is always taken,
/// and a lock that cannot be created is given up at once.
pub proof fn law_lock_gives_up_after_all_tries()
    ensures
        forall|a: int| 0 <= a < LOCK_ATTEMPTS - 1 ==> #[trigger] lock_next(a, LockAttempt::Busy) == LockStep::Retry,
        lock_next(LOCK_ATTEMPTS - 1, LockAttempt::Busy) == LockStep::WaitThenGiveUp,
        forall|a: int| #[trigger] lock_next(a, LockAttempt::Created) == LockStep::Acquired,
        forall|a: int| #[trigger] lock_next(a, LockAttempt::Failed) == LockStep::Fail,
{
}

/// Decides what follows try number `attempt` (from 0) to take the lock.
pub fn lock_step(attempt: u32, found: LockAttempt) -> (r: LockStep)
    ensures
        r == lock_next(attempt as int, found),
{
    match found {
        LockAttempt::Created => LockStep::Acquired,
        LockAttempt::Failed => LockStep::Fail,
        LockAttempt::Busy => if attempt < LOCK_ATTEMPTS - 1 {
            LockStep::Retry
        } else {
            LockStep::WaitThenGiveUp
        },
    }
}

} // verus!
