//! The background synchronisation: what it asks Git to do, step by step, and
//! how it answers each outcome.
use vstd::prelude::*;
use crate::tags::texts;
use crate::entry::path_texts;
use crate::repo::{opt_string_view, GitState};
use crate::text::{decimal, decimal_seq, first_index, lemma_first_index};
use crate::text::{chars_of, eq_lit, find_char, split_on, string_from, sub_vec};

verus! {

broadcast use vstd::string::group_string_axioms;

/// `s` without one trailing carriage return.
pub open spec fn strip_cr(s: Seq<char>) -> Seq<char> {
    if s.len() > 0 && s.last() == '\r' {
        s.drop_last()
    } else {
        s
    }
}

/// The lines of `text` as `str::lines` gives them, the last one included even
/// where empty: split at each `\n`, with a `\r` before a `\n` dropped.
pub open spec fn line_pieces(text: Seq<char>) -> Seq<Seq<char>> {
    let p = split_on(text, '\n');
    p.drop_last().map_values(|l: Seq<char>| strip_cr(l)).push(p.last())
}

/// Whether a line holds anything.
pub open spec fn non_empty(l: Seq<char>) -> bool {
    l.len() > 0
}

/// The non-empty lines of `text`, in order.
pub open spec fn non_empty_lines(text: Seq<char>) -> Seq<Seq<char>> {
    line_pieces(text).filter(|l: Seq<char>| non_empty(l))
}

/// The non-empty lines of `text` (each line as `str::lines` gives it).
pub fn non_empty_lines_of(text: &str) -> (r: Vec<String>)
    ensures
        texts(r@) == non_empty_lines(text@),
{
    let v = chars_of(text);
    let n = v.len();
    let mut out: Vec<String> = Vec::new();
    let mut pos: usize = 0;
    let ghost mut done: Seq<Seq<char>> = Seq::empty();
    let ghost pred = |l: Seq<char>| non_empty(l);
    let ghost strip = |l: Seq<char>| strip_cr(l);
    assert(v@.skip(0) =~= v@);
    loop
        invariant_except_break
            split_on(v@, '\n') == done + split_on(v@.skip(pos as int), '\n'),
            texts(out@) == done.map_values(strip).filter(pred),
        invariant
            n == v@.len(),
            v@ == text@,
            pos <= n,
            pred == (|l: Seq<char>| non_empty(l)),
            strip == (|l: Seq<char>| strip_cr(l)),
        ensures
            texts(out@) == non_empty_lines(text@),
        decreases n - pos,
    {
        let e = find_char(&v, pos, '\n');
        let ghost rest = v@.skip(pos as int);
        let mut hi = e;
        if e < n && e > pos && v[e - 1] == '\r' {
            hi = e - 1;
        }
        let piece = sub_vec(&v, pos, hi);
        let ghost raw = v@.subrange(pos as int, e as int);
        assert(rest.take(e - pos) =~= raw);
        if e < n {
            assert(rest.skip(e - pos + 1) =~= v@.skip(e + 1));
            assert(piece@ =~= strip_cr(raw));
        } else {
            assert(piece@ =~= raw);
        }
        let ghost kept_before = done.map_values(strip);
        let ghost new_seq = kept_before.push(piece@);
        assert(new_seq.drop_last() =~= kept_before);
        assert(new_seq.filter(pred) == if pred(piece@) {
            kept_before.filter(pred).push(piece@)
        } else {
            kept_before.filter(pred)
        }) by {
            reveal(Seq::filter);
        }
        if piece.len() > 0 {
            let s = string_from(&piece);
            let ghost old_out = out@;
            out.push(s);
            assert(texts(out@) =~= texts(old_out).push(piece@));
        }
        if e == n {
            proof {
                assert(split_on(v@, '\n') =~= done.push(raw));
                assert(split_on(v@, '\n').drop_last() =~= done);
                assert(line_pieces(text@) =~= new_seq);
            }
            break;
        }
        proof {
            assert(done.push(raw).map_values(strip) =~= new_seq);
            done = done.push(raw);
            assert(split_on(v@, '\n') =~= done + split_on(v@.skip(e + 1), '\n'));
        }
        pos = e + 1;
    }
    out
}


/// The texts of each piece.
pub open spec fn piece_views(v: Seq<Vec<char>>) -> Seq<Seq<char>> {
    v.map_values(|x: Vec<char>| x@)
}

/// The pieces of `v` between the occurrences of `sep`.
pub fn split_all(v: &Vec<char>, sep: char) -> (r: Vec<Vec<char>>)
    ensures
        piece_views(r@) == split_on(v@, sep),
{
    let n = v.len();
    let mut out: Vec<Vec<char>> = Vec::new();
    let mut pos: usize = 0;
    assert(v@.skip(0) =~= v@);
    loop
        invariant_except_break
            split_on(v@, sep) == piece_views(out@) + split_on(v@.skip(pos as int), sep),
        invariant
            n == v@.len(),
            pos <= n,
        ensures
            piece_views(out@) == split_on(v@, sep),
        decreases n - pos,
    {
        let e = find_char(v, pos, sep);
        let piece = sub_vec(v, pos, e);
        let ghost rest = v@.skip(pos as int);
        assert(rest.take(e - pos) =~= piece@);
        let ghost old_out = out@;
        out.push(piece);
        assert(piece_views(out@) =~= piece_views(old_out).push(piece@));
        if e == n {
            assert(split_on(v@, sep) =~= piece_views(out@));
            break;
        }
        assert(rest.skip(e - pos + 1) =~= v@.skip(e + 1));
        assert(split_on(v@, sep) =~= piece_views(out@) + split_on(v@.skip(e + 1), sep));
        pos = e + 1;
    }
    out
}

/// Whether a piece of a path names a directory step: it is neither empty
/// nor `.`.
pub open spec fn is_step(s: Seq<char>) -> bool {
    s.len() > 0 && s != "."@
}

/// The components that a relative path written with `/` contributes when it
/// is joined to a directory, as `Path::components` gives them on Unix: a
/// leading `/` for an absolute path, then each piece between slashes other
/// than empty pieces and `.` (a leading `./` of a path standing alone would
/// be kept by `Path::components`; joined to a directory it is not).
pub open spec fn path_parts(p: Seq<char>) -> Seq<Seq<char>> {
    let steps = split_on(p, '/').filter(|s: Seq<char>| is_step(s));
    if p.len() > 0 && p[0] == '/' {
        seq!["/"@] + steps
    } else {
        steps
    }
}

/// The components of `p` joined to a directory with components `repo`
/// (`Path::join`): an absolute `p` replaces the directory.
pub open spec fn joined_parts(repo: Seq<Seq<char>>, p: Seq<char>) -> Seq<Seq<char>> {
    if p.len() > 0 && p[0] == '/' {
        path_parts(p)
    } else {
        repo + path_parts(p)
    }
}

/// The components of `p` joined to the directory with components `repo`.
pub fn join_path(repo: &Vec<String>, p: &str) -> (r: Vec<String>)
    ensures
        texts(r@) == joined_parts(texts(repo@), p@),
{
    let v = chars_of(p);
    let pieces = split_all(&v, '/');
    let absolute = v.len() > 0 && v[0] == '/';
    let mut out: Vec<String> = Vec::new();
    if absolute {
        out.push(String::from_str("/"));
    } else {
        let mut k: usize = 0;
        while k < repo.len()
            invariant
                k <= repo@.len(),
                texts(out@) == texts(repo@).take(k as int),
            decreases repo@.len() - k,
        {
            let ghost old_out = out@;
            out.push(repo[k].clone());
            assert(texts(out@) =~= texts(old_out).push(repo@[k as int]@));
            assert(texts(repo@).take(k + 1) =~= texts(repo@).take(k as int).push(repo@[k as int]@));
            k = k + 1;
        }
        assert(texts(repo@).take(repo@.len() as int) =~= texts(repo@));
    }
    let ghost head = texts(out@);
    let ghost pred = |s: Seq<char>| is_step(s);
    let ghost all = piece_views(pieces@);
    let mut i: usize = 0;
    while i < pieces.len()
        invariant
            i <= pieces@.len(),
            all == piece_views(pieces@),
            pred == (|s: Seq<char>| is_step(s)),
            texts(out@) == head + all.take(i as int).filter(pred),
        decreases pieces@.len() - i,
    {
        let ghost before = all.take(i as int).filter(pred);
        assert(all.take(i + 1).drop_last() =~= all.take(i as int));
        assert(all.take(i + 1).last() == pieces@[i as int]@);
        assert(all.take(i + 1).filter(pred) == if pred(pieces@[i as int]@) {
            before.push(pieces@[i as int]@)
        } else {
            before
        }) by {
            reveal(Seq::filter);
        }
        let step = pieces[i].len() > 0 && !eq_lit(&pieces[i], ".");
        if step {
            let ghost old_out = out@;
            out.push(string_from(&pieces[i]));
            assert(texts(out@) =~= texts(old_out).push(pieces@[i as int]@));
        }
        i = i + 1;
    }
    assert(all.take(pieces@.len() as int) =~= all);
    proof {
        if absolute {
            assert(head =~= seq!["/"@]);
        }
    }
    out
}

/// Whether two paths have the same components.
pub fn same_parts(a: &Vec<String>, b: &Vec<String>) -> (r: bool)
    ensures
        r == (texts(a@) == texts(b@)),
{
    if a.len() != b.len() {
        assert(texts(a@).len() != texts(b@).len());
        return false;
    }
    let mut k: usize = 0;
    while k < a.len()
        invariant
            k <= a@.len() == b@.len(),
            forall|i: int| 0 <= i < k ==> a@[i]@ == b@[i]@,
        decreases a@.len() - k,
    {
        if a[k] != b[k] {
            assert(texts(a@)[k as int] != texts(b@)[k as int]);
            return false;
        }
        k = k + 1;
    }
    assert(texts(a@) =~= texts(b@));
    true
}

/// The side whose version of a conflicting file a rebase keeps: the incoming
/// one (`theirs`) for a file this note wrote, the upstream one (`ours`) for
/// any other.
pub open spec fn side_for(repo: Seq<Seq<char>>, memo: Seq<Seq<Seq<char>>>, p: Seq<char>) -> Seq<
    char,
> {
    if memo.contains(joined_parts(repo, p)) {
        "theirs"@
    } else {
        "ours"@
    }
}

/// Chooses the side kept for the conflicting file `p` of the repository
/// with components `repo`, given the components of the note's files.
pub fn choose_side(repo: &Vec<String>, memo: &Vec<Vec<String>>, p: &str) -> (r: String)
    ensures
        r@ == side_for(texts(repo@), path_texts(memo@), p@),
{
    let joined = join_path(repo, p);
    let mut k: usize = 0;
    while k < memo.len()
        invariant
            k <= memo@.len(),
            texts(joined@) == joined_parts(texts(repo@), p@),
            forall|i: int| 0 <= i < k ==> path_texts(memo@)[i] != texts(joined@),
        decreases memo@.len() - k,
    {
        if same_parts(&memo[k], &joined) {
            assert(path_texts(memo@)[k as int] == texts(joined@));
            return String::from_str("theirs");
        }
        k = k + 1;
    }
    String::from_str("ours")
}


/// What the synchronisation asks for next.
pub enum Op {
    /// Run `git` with these arguments; only whether it succeeds matters.
    Run(Vec<String>),
    /// Run `git` with these arguments and hand back its output.
    Read(Vec<String>),
    /// Read the current branch and its upstream.
    Capture,
    /// Stop, with this outcome.
    Finish(Result<(), String>),
}

/// A step of the synchronisation: the notes to report first, in order, then
/// what to do.
pub struct Action {
    pub notes: Vec<String>,
    pub op: Op,
}

/// What an `Op` holds.
pub enum OpView {
    Run(Seq<Seq<char>>),
    Read(Seq<Seq<char>>),
    Capture,
    Finish(Result<(), Seq<char>>),
}

/// What an `Action` holds.
pub struct ActionView {
    pub notes: Seq<Seq<char>>,
    pub op: OpView,
}

/// What an `Op` holds.
pub open spec fn op_view(op: Op) -> OpView {
    match op {
        Op::Run(a) => OpView::Run(texts(a@)),
        Op::Read(a) => OpView::Read(texts(a@)),
        Op::Capture => OpView::Capture,
        Op::Finish(r) => OpView::Finish(
            match r {
                Ok(()) => Ok(()),
                Err(e) => Err(e@),
            },
        ),
    }
}

impl View for Action {
    type V = ActionView;

    open spec fn view(&self) -> ActionView {
        ActionView { notes: texts(self.notes@), op: op_view(self.op) }
    }
}

/// The action `op`, without notes.
pub fn bare(op: Op) -> (a: Action)
    ensures
        a@ == plain(op_view(op)),
{
    let a = Action { notes: Vec::new(), op };
    assert(texts(a.notes@) =~= Seq::<Seq<char>>::empty());
    a
}

/// An action without notes.
pub open spec fn plain(op: OpView) -> ActionView {
    ActionView { notes: Seq::empty(), op }
}

/// An action with one note.
pub open spec fn noted(note: Seq<char>, op: OpView) -> ActionView {
    ActionView { notes: seq![note], op }
}

/// The view of a command's outcome.
pub open spec fn outcome_view(r: Result<String, String>) -> Result<Seq<char>, Seq<char>> {
    match r {
        Ok(s) => Ok(s@),
        Err(e) => Err(e@),
    }
}

/// Appends `s` to `v`.
fn push_text(v: &mut Vec<String>, s: String)
    ensures
        texts(final(v)@) == texts(old(v)@).push(s@),
{
    let ghost before = v@;
    v.push(s);
    assert(texts(v@) =~= texts(before).push(s@));
}

/// A vector of strings holding the given texts.
fn strings2(a: &str, b: &str) -> (r: Vec<String>)
    ensures
        texts(r@) == seq![a@, b@],
{
    let mut r = Vec::new();
    push_text(&mut r, String::from_str(a));
    push_text(&mut r, String::from_str(b));
    assert(texts(r@) =~= seq![a@, b@]);
    r
}

/// A vector of strings holding the given texts.
fn strings3(a: &str, b: &str, c: &str) -> (r: Vec<String>)
    ensures
        texts(r@) == seq![a@, b@, c@],
{
    let mut r = strings2(a, b);
    push_text(&mut r, String::from_str(c));
    assert(texts(r@) =~= seq![a@, b@, c@]);
    r
}

/// A vector of strings holding the given texts.
fn strings4(a: &str, b: &str, c: &str, d: &str) -> (r: Vec<String>)
    ensures
        texts(r@) == seq![a@, b@, c@, d@],
{
    let mut r = strings3(a, b, c);
    push_text(&mut r, String::from_str(d));
    assert(texts(r@) =~= seq![a@, b@, c@, d@]);
    r
}

/// The arguments of `git push` of the current head to `branch` of `remote`.
pub open spec fn push_args(remote: Seq<char>, branch: Seq<char>) -> Seq<Seq<char>> {
    seq!["push"@, remote, "HEAD:"@ + branch]
}

/// The arguments that push the current head to `branch` of `remote`.
pub fn push(remote: &str, branch: &str) -> (r: Vec<String>)
    ensures
        texts(r@) == push_args(remote@, branch@),
{
    let mut target = String::from_str("HEAD:");
    target.append(branch);
    let mut r = strings2("push", remote);
    push_text(&mut r, target);
    assert(texts(r@) =~= push_args(remote@, branch@));
    r
}

/// Where a conflict resolution stands.
pub enum RebasePhase {
    /// The first rebase onto the upstream was asked for.
    FirstRebase,
    /// The list of conflicting files was asked for.
    Diff,
    /// Skipping the current commit was asked for.
    Skip,
    /// Checking out one side of the current conflicting file was asked for.
    Checkout,
    /// Staging the current conflicting file was asked for.
    Add,
    /// Continuing the rebase was asked for.
    Continue,
    /// Aborting the rebase was asked for.
    Abort,
    /// The resolution has finished.
    Done,
}

/// How many rounds of conflict resolution are tried before giving up.
pub const MAX_ROUNDS: usize = 10;

/// A rebase onto the upstream that resolves its conflicts by itself: the
/// files of this note keep the incoming version, all others the upstream one.
pub struct Rebase {
    pub upstream: String,
    pub repo: Vec<String>,
    pub memo: Vec<Vec<String>>,
    pub first_error: String,
    pub round: usize,
    pub conflicts: Vec<String>,
    pub index: usize,
    pub phase: RebasePhase,
}

/// The arguments that list the files with unresolved conflicts.
pub open spec fn diff_args() -> Seq<Seq<char>> {
    seq!["diff"@, "--name-only"@, "--diff-filter=U"@]
}

/// The arguments that abort a rebase.
pub open spec fn abort_args() -> Seq<Seq<char>> {
    seq!["rebase"@, "--abort"@]
}

/// The arguments that check out the chosen side of conflicting file `i`.
pub open spec fn checkout_args(r: Rebase, i: int) -> Seq<Seq<char>> {
    seq![
        "checkout"@,
        side_for(texts(r.repo@), path_texts(r.memo@), r.conflicts@[i]@),
        "--"@,
        r.conflicts@[i]@,
    ]
}

/// The arguments that stage conflicting file `i`.
pub open spec fn add_args_for(r: Rebase, i: int) -> Seq<Seq<char>> {
    seq!["add"@, "--"@, r.conflicts@[i]@]
}

/// The arguments that continue a rebase without opening an editor.
pub open spec fn continue_args() -> Seq<Seq<char>> {
    seq!["-c"@, "core.editor=true"@, "rebase"@, "--continue"@]
}

impl Rebase {
    /// The counters of a resolution in progress stay in range.
    pub open spec fn wf(self) -> bool {
        &&& self.round < MAX_ROUNDS
        &&& self.phase is FirstRebase ==> self.round == 0
        &&& self.index <= self.conflicts@.len()
        &&& (self.phase is Checkout || self.phase is Add) ==> self.index < self.conflicts@.len()
    }

    /// Whether the resolution has finished.
    pub open spec fn is_done(self) -> bool {
        self.phase is Done
    }

    /// The next state and action of a resolution after the outcome of what it
    /// asked for.
    pub open spec fn next(self, r: Result<Seq<char>, Seq<char>>, n: Rebase, a: ActionView) -> bool {
        let done = Rebase { phase: RebasePhase::Done, ..self };
        match self.phase {
            RebasePhase::FirstRebase => match r {
                Ok(_) => n == done && a == plain(OpView::Finish(Ok(()))),
                Err(e) => {
                    &&& n == Rebase {
                        phase: RebasePhase::Diff,
                        first_error: n.first_error,
                        round: 0,
                        ..self
                    }
                    &&& n.first_error@ == e
                    &&& a == plain(OpView::Read(diff_args()))
                },
            },
            RebasePhase::Diff => match r {
                Err(e) => n == done && a == plain(OpView::Finish(Err(e))),
                Ok(out) => {
                    let c = non_empty_lines(out);
                    if c.len() == 0 {
                        n == Rebase { phase: RebasePhase::Skip, ..self } && a == plain(
                            OpView::Run(seq!["rebase"@, "--skip"@]),
                        )
                    } else {
                        &&& n == Rebase {
                            phase: RebasePhase::Checkout,
                            conflicts: n.conflicts,
                            index: 0,
                            ..self
                        }
                        &&& texts(n.conflicts@) == c
                        &&& a == plain(OpView::Run(checkout_args(n, 0)))
                    }
                },
            },
            RebasePhase::Skip => match r {
                Ok(_) => n == done && a == plain(OpView::Finish(Ok(()))),
                Err(_) => n == Rebase { phase: RebasePhase::Abort, ..self } && a == plain(
                    OpView::Run(abort_args()),
                ),
            },
            RebasePhase::Checkout => match r {
                Err(e) => n == done && a == plain(OpView::Finish(Err(e))),
                Ok(_) => n == Rebase { phase: RebasePhase::Add, ..self } && a == plain(
                    OpView::Run(add_args_for(self, self.index as int)),
                ),
            },
            RebasePhase::Add => match r {
                Err(e) => n == done && a == plain(OpView::Finish(Err(e))),
                Ok(_) => if self.index + 1 < self.conflicts@.len() {
                    &&& n == Rebase { phase: RebasePhase::Checkout, index: n.index, ..self }
                    &&& n.index == self.index + 1
                    &&& a == plain(OpView::Run(checkout_args(n, n.index as int)))
                } else {
                    n == Rebase { phase: RebasePhase::Continue, ..self } && a == plain(
                        OpView::Run(continue_args()),
                    )
                },
            },
            RebasePhase::Continue => match r {
                Ok(_) => n == done && a == plain(OpView::Finish(Ok(()))),
                Err(_) => if self.round + 1 < MAX_ROUNDS {
                    &&& n == Rebase { phase: RebasePhase::Diff, round: n.round, ..self }
                    &&& n.round == self.round + 1
                    &&& a == plain(OpView::Read(diff_args()))
                } else {
                    n == Rebase { phase: RebasePhase::Abort, ..self } && a == plain(
                        OpView::Run(abort_args()),
                    )
                },
            },
            RebasePhase::Abort => n == done && a == plain(
                OpView::Finish(Err("automatic rebase resolution failed: "@ + self.first_error@)),
            ),
            RebasePhase::Done => false,
        }
    }

    /// Answers the outcome of the last action: what the resolution does next.
    pub fn step(&mut self, outcome: Result<String, String>) -> (a: Action)
        requires
            old(self).wf(),
            !old(self).is_done(),
        ensures
            final(self).wf(),
            old(self).next(outcome_view(outcome), *final(self), a@),
    {
        match self.phase {
            RebasePhase::FirstRebase => match outcome {
                Ok(_) => {
                    self.phase = RebasePhase::Done;
                    bare(Op::Finish(Ok(())))
                },
                Err(e) => {
                    self.first_error = e;
                    self.round = 0;
                    self.phase = RebasePhase::Diff;
                    bare(Op::Read(strings3("diff", "--name-only", "--diff-filter=U")))
                },
            },
            RebasePhase::Diff => match outcome {
                Err(e) => {
                    self.phase = RebasePhase::Done;
                    bare(Op::Finish(Err(e)))
                },
                Ok(out) => {
                    let c = non_empty_lines_of(out.as_str());
                    if c.len() == 0 {
                        self.phase = RebasePhase::Skip;
                        bare(Op::Run(strings2("rebase", "--skip")))
                    } else {
                        self.conflicts = c;
                        self.index = 0;
                        self.phase = RebasePhase::Checkout;
                        let a = self.checkout_action();
                        a
                    }
                },
            },
            RebasePhase::Skip => match outcome {
                Ok(_) => {
                    self.phase = RebasePhase::Done;
                    bare(Op::Finish(Ok(())))
                },
                Err(_) => {
                    self.phase = RebasePhase::Abort;
                    bare(Op::Run(strings2("rebase", "--abort")))
                },
            },
            RebasePhase::Checkout => match outcome {
                Err(e) => {
                    self.phase = RebasePhase::Done;
                    bare(Op::Finish(Err(e)))
                },
                Ok(_) => {
                    self.phase = RebasePhase::Add;
                    let path = self.conflicts[self.index].clone();
                    let mut args = strings2("add", "--");
                    push_text(&mut args, path);
                    proof {
                        assert(texts(args@) =~= add_args_for(*old(self), old(self).index as int));
                    }
                    bare(Op::Run(args))
                },
            },
            RebasePhase::Add => match outcome {
                Err(e) => {
                    self.phase = RebasePhase::Done;
                    bare(Op::Finish(Err(e)))
                },
                Ok(_) => {
                    let count = self.conflicts.len();
                    assert(self.index < count);
                    if self.index + 1 < count {
                        self.index = self.index + 1;
                        self.phase = RebasePhase::Checkout;
                        self.checkout_action()
                    } else {
                        self.phase = RebasePhase::Continue;
                        bare(Op::Run(strings4("-c", "core.editor=true", "rebase", "--continue")))
                    }
                },
            },
            RebasePhase::Continue => match outcome {
                Ok(_) => {
                    self.phase = RebasePhase::Done;
                    bare(Op::Finish(Ok(())))
                },
                Err(_) => {
                    if self.round + 1 < MAX_ROUNDS {
                        self.round = self.round + 1;
                        self.phase = RebasePhase::Diff;
                        bare(Op::Read(strings3("diff", "--name-only", "--diff-filter=U")))
                    } else {
                        self.phase = RebasePhase::Abort;
                        bare(Op::Run(strings2("rebase", "--abort")))
                    }
                },
            },
            RebasePhase::Abort => {
                self.phase = RebasePhase::Done;
                let mut e = String::from_str("automatic rebase resolution failed: ");
                e.append(self.first_error.as_str());
                bare(Op::Finish(Err(e)))
            },
            RebasePhase::Done => bare(Op::Finish(Ok(()))),
        }
    }

    /// The checkout of the chosen side of the current conflicting file.
    fn checkout_action(&self) -> (a: Action)
        requires
            self.index < self.conflicts@.len(),
        ensures
            a@ == plain(OpView::Run(checkout_args(*self, self.index as int))),
    {
        let path = &self.conflicts[self.index];
        let side = choose_side(&self.repo, &self.memo, path.as_str());
        let mut args = strings2("checkout", side.as_str());
        push_text(&mut args, String::from_str("--"));
        push_text(&mut args, path.clone());
        assert(texts(args@) =~= checkout_args(*self, self.index as int));
        bare(Op::Run(args))
    }
}

/// Starts a rebase of the current branch onto `upstream` that resolves its
/// conflicts by itself, given the components of the repository directory and
/// of the files this note wrote; the first action runs the rebase.
pub fn rebase_with_auto_resolution(repo: Vec<String>, upstream: &str, memo_paths: Vec<
    Vec<String>,
>) -> (r: (Rebase, Action))
    ensures
        r.0.wf(),
        r.0.phase is FirstRebase,
        r.0.upstream@ == upstream@,
        r.0.repo == repo,
        r.0.memo == memo_paths,
        r.0.round == 0,
        r.1@ == plain(OpView::Run(seq!["rebase"@, upstream@])),
{
    let machine = Rebase {
        upstream: String::from_str(upstream),
        repo,
        memo: memo_paths,
        first_error: String::new(),
        round: 0,
        conflicts: Vec::new(),
        index: 0,
        phase: RebasePhase::FirstRebase,
    };
    let a = bare(Op::Run(strings2("rebase", upstream)));
    (machine, a)
}


/// The place of a phase in the order in which a round goes through them.
pub open spec fn phase_rank(p: RebasePhase) -> int {
    match p {
        RebasePhase::FirstRebase => 5,
        RebasePhase::Diff => 4,
        RebasePhase::Checkout => 3,
        RebasePhase::Add => 3,
        RebasePhase::Skip => 2,
        RebasePhase::Continue => 2,
        RebasePhase::Abort => 1,
        RebasePhase::Done => 0,
    }
}

/// What remains of a resolution, compared lexicographically: rounds left,
/// the phase, conflicting files left, and whether the current file still
/// needs its checkout.
pub open spec fn rebase_rank(r: Rebase) -> (int, int, int, int) {
    (
        MAX_ROUNDS - r.round,
        phase_rank(r.phase),
        r.conflicts@.len() - r.index,
        if r.phase is Checkout {
            1
        } else {
            0
        },
    )
}

/// Lexicographic order on ranks.
pub open spec fn rank_less(a: (int, int, int, int), b: (int, int, int, int)) -> bool {
    ||| a.0 < b.0
    ||| a.0 == b.0 && a.1 < b.1
    ||| a.0 == b.0 && a.1 == b.1 && a.2 < b.2
    ||| a.0 == b.0 && a.1 == b.1 && a.2 == b.2 && a.3 < b.3
}

/// Law: the automatic conflict resolution always comes to an end: each step
/// either finishes it or lowers what remains of it, and its ranks are bounded
/// below (at most ten rounds, each over a finite list of files).
pub proof fn law_rebase_progress(
    r: Rebase,
    outcome: Result<Seq<char>, Seq<char>>,
    n: Rebase,
    a: ActionView,
)
    requires
        r.wf(),
        !r.is_done(),
        r.next(outcome, n, a),
    ensures
        n.wf(),
        n.is_done() || rank_less(rebase_rank(n), rebase_rank(r)),
        rebase_rank(n).0 >= 0 && rebase_rank(n).1 >= 0 && rebase_rank(n).2 >= 0 && rebase_rank(n).3 >= 0,
{
}

/// Law: a resolution finishes only with the action that ends it, never asks
/// for the branch state, and a failed resolution that gets to the abort
/// reports the error of the first rebase.
pub proof fn law_rebase_abort_reports_first_error(
    r: Rebase,
    outcome: Result<Seq<char>, Seq<char>>,
    n: Rebase,
    a: ActionView,
)
    requires
        r.wf(),
        !r.is_done(),
        r.next(outcome, n, a),
    ensures
        n.is_done() <==> a.op is Finish,
        !(a.op is Capture),
        r.phase is Abort ==> a.op == OpView::Finish(
            Err("automatic rebase resolution failed: "@ + r.first_error@),
        ),
{
}


/// The remote and branch an upstream such as `origin/main` names: the parts
/// before and after its first `/`; an upstream without `/` names `branch` of
/// `origin`.
pub open spec fn remote_split(upstream: Seq<char>, branch: Seq<char>) -> (Seq<char>, Seq<char>) {
    let i = first_index(upstream, '/');
    if i < upstream.len() {
        (upstream.take(i), upstream.skip(i + 1))
    } else {
        ("origin"@, branch)
    }
}

/// Splits an upstream into the remote and the branch it names.
pub fn remote_and_branch(upstream: &str, branch: &str) -> (r: (String, String))
    ensures
        (r.0@, r.1@) == remote_split(upstream@, branch@),
{
    let v = chars_of(upstream);
    let i = find_char(&v, 0, '/');
    assert(v@.skip(0) =~= v@);
    if i < v.len() {
        let a = sub_vec(&v, 0, i);
        let b = sub_vec(&v, i + 1, v.len());
        assert(a@ =~= upstream@.take(i as int));
        assert(b@ =~= upstream@.skip(i + 1));
        (string_from(&a), string_from(&b))
    } else {
        (String::from_str("origin"), String::from_str(branch))
    }
}

/// The summary line of a commit for a note: the first line of its message
/// (as `str::lines` gives it), or `entry` for an empty message.
pub open spec fn summary_of(message: Seq<char>) -> Seq<char> {
    if message.len() == 0 {
        "entry"@
    } else {
        let i = first_index(message, '\n');
        if i < message.len() {
            strip_cr(message.take(i))
        } else {
            message
        }
    }
}

/// Law: the summary is the whole first line of the message. A non-empty
/// message with no line break is its own summary; a message whose first line
/// break follows the text `a` is summed up by `a`, without a carriage return
/// that ends it.
pub proof fn law_summary_is_first_line(a: Seq<char>, b: Seq<char>)
    requires
        forall|i: int| 0 <= i < a.len() ==> #[trigger] a[i] != '\n',
    ensures
        a.len() > 0 ==> summary_of(a) == a,
        (a.len() == 0 || a.last() != '\r') ==> summary_of(a + seq!['\n'] + b) == a,
        a.len() > 0 && a.last() == '\r' ==> summary_of(a + seq!['\n'] + b) == a.drop_last(),
{
    lemma_first_index(a, '\n', a.len() as int);
    let m = a + seq!['\n'] + b;
    assert forall|i: int| 0 <= i < a.len() implies #[trigger] m[i] != '\n' by {
        assert(m[i] == a[i]);
    }
    assert(m[a.len() as int] == '\n');
    lemma_first_index(m, '\n', a.len() as int);
    assert(m.take(a.len() as int) =~= a);
}

/// The first line of a message, or `entry` where it is empty.
pub fn commit_summary(message: &str) -> (r: String)
    ensures
        r@ == summary_of(message@),
{
    let v = chars_of(message);
    if v.len() == 0 {
        return String::from_str("entry");
    }
    let i = find_char(&v, 0, '\n');
    assert(v@.skip(0) =~= v@);
    if i < v.len() {
        let hi = if i > 0 && v[i - 1] == '\r' {
            i - 1
        } else {
            i
        };
        let a = sub_vec(&v, 0, hi);
        assert(a@ =~= strip_cr(message@.take(i as int)));
        string_from(&a)
    } else {
        String::from_str(message)
    }
}

/// The arguments that stage the note's files.
pub open spec fn add_args(paths: Seq<Seq<char>>) -> Seq<Seq<char>> {
    seq!["add"@, "--"@] + paths
}

/// The arguments that commit only the note's files, with `memo: ` and the
/// summary of the message as the commit message, skipping hooks.
pub open spec fn commit_args(paths: Seq<Seq<char>>, message: Seq<char>) -> Seq<Seq<char>> {
    seq!["commit"@, "--only"@, "--no-verify"@, "-m"@, "memo: "@ + summary_of(message), "--"@]
        + paths
}

/// What comes back from an action.
pub enum Event {
    /// The outcome of running or reading a command: its output, or why it
    /// failed.
    Output(Result<String, String>),
    /// The branch state that was read.
    Captured(GitState),
}

/// Where a synchronisation stands.
pub enum SyncPhase {
    /// The branch state before anything else was asked for.
    Capture1,
    /// Fetching the upstream's remote was asked for.
    Fetch1,
    /// Aborting a pending rebase was asked for.
    AbortRebase,
    /// Aborting a pending merge was asked for.
    AbortMerge,
    /// The commits on the branch that the upstream lacks were asked for.
    Ahead,
    /// The uncommitted changes to tracked files were asked for.
    Dirty,
    /// Resetting to the upstream was asked for.
    Reset,
    /// The branch state after the reset was asked for.
    Capture2,
    /// Staging the note's files was asked for.
    Add,
    /// Committing the note's files was asked for.
    Commit,
    /// The first push was asked for.
    Push1,
    /// Fetching after a refused push was asked for.
    Fetch2,
    /// A rebase with automatic conflict resolution is under way.
    Rebasing,
    /// The push after the rebase was asked for.
    Push2,
    /// The synchronisation has finished.
    Done,
}

/// The background synchronisation of a note: fetch the upstream and reset
/// the branch to it where no memo changes are pending (no commit the upstream
/// lacks, no uncommitted change to a tracked file), commit the note's files,
/// and push, rebasing once where the push is refused.
pub struct SyncRun {
    /// The components of the repository directory.
    pub repo: Vec<String>,
    /// The note's files, as given to Git.
    pub paths: Vec<String>,
    /// The components of the note's files.
    pub memo: Vec<Vec<String>>,
    /// The note's message.
    pub message: String,
    /// The branch state last read.
    pub before: GitState,
    pub upstream: String,
    pub remote: String,
    pub branch: String,
    /// The conflict resolution, while one is under way.
    pub rebase: Rebase,
    pub phase: SyncPhase,
}

/// The note that the checkout was reset to the upstream.
pub open spec fn synchronized_note(remote: Seq<char>, branch: Seq<char>) -> Seq<char> {
    "memo: synchronized "@ + remote + "/"@ + branch + " (local changes reset)"@
}

/// The note that the reset was skipped because memo changes are pending.
pub open spec fn kept_note(upstream: Seq<char>) -> Seq<char> {
    "memo: pending memo changes kept; reset to "@ + upstream + " skipped"@
}

/// The note that the files were committed.
pub open spec fn committed_note(count: nat) -> Seq<char> {
    "memo: committed "@ + decimal_seq(count) + " file(s)"@
}

/// The note that nothing is pushed for want of an upstream.
pub open spec fn local_only_note() -> Seq<char> {
    "memo: committed locally; no upstream configured, push skipped"@
}

/// The note that the push succeeded.
pub open spec fn pushed_note(remote: Seq<char>, branch: Seq<char>) -> Seq<char> {
    "memo: pushed "@ + remote + "/"@ + branch
}

/// The note that the push was refused and a rebase follows.
pub open spec fn raced_note() -> Seq<char> {
    "memo: push raced with a remote update; fetching and rebasing before retry"@
}

/// The note that the push after the rebase succeeded.
pub open spec fn pushed_after_rebase_note(remote: Seq<char>, branch: Seq<char>) -> Seq<char> {
    "memo: pushed "@ + remote + "/"@ + branch + " after fetch/rebase"@
}

impl SyncRun {
    /// A synchronisation under way keeps a conflict resolution under way
    /// while it rebases.
    pub open spec fn wf(self) -> bool {
        self.phase is Rebasing ==> self.rebase.wf() && !self.rebase.is_done()
    }

    /// Whether the synchronisation has finished.
    pub open spec fn is_done(self) -> bool {
        self.phase is Done
    }

    /// Whether `e` answers what was asked for: a branch state after a
    /// capture, a command's outcome otherwise.
    pub open spec fn accepts(self, e: Event) -> bool {
        (self.phase is Capture1 || self.phase is Capture2) <==> e is Captured
    }

    /// The note that the reset to the upstream was skipped.
    fn kept_text(&self) -> (r: String)
        ensures
            r@ == kept_note(self.upstream@),
    {
        let mut note = String::from_str("memo: pending memo changes kept; reset to ");
        note.append(self.upstream.as_str());
        note.append(" skipped");
        note
    }

    /// Answers event `e`: what the synchronisation does next.
    pub fn step(&mut self, e: Event) -> (a: Action)
        requires
            old(self).wf(),
            !old(self).is_done(),
            old(self).accepts(e),
        ensures
            final(self).wf(),
            old(self).next(e, *final(self), a@),
    {
        match e {
            Event::Captured(st) => {
                if matches!(self.phase, SyncPhase::Capture1) {
                    match &st.upstream {
                        None => {
                            self.before = st;
                            self.phase = SyncPhase::Add;
                            bare(Op::Run(add_arguments(&self.paths)))
                        },
                        Some(u) => {
                            let (remote, branch) = remote_and_branch(u.as_str(), st.branch.as_str());
                            let args = strings2("fetch", remote.as_str());
                            self.upstream = u.clone();
                            self.remote = remote;
                            self.branch = branch;
                            self.before = st;
                            self.phase = SyncPhase::Fetch1;
                            bare(Op::Run(args))
                        },
                    }
                } else {
                    self.before = st;
                    self.phase = SyncPhase::Add;
                    bare(Op::Run(add_arguments(&self.paths)))
                }
            },
            Event::Output(r) => self.step_output(r),
        }
    }

    /// Answers the outcome of a command.
    fn step_output(&mut self, r: Result<String, String>) -> (a: Action)
        requires
            old(self).wf(),
            !old(self).is_done(),
            !(old(self).phase is Capture1 || old(self).phase is Capture2),
        ensures
            final(self).wf(),
            old(self).next(Event::Output(r), *final(self), a@),
    {
        match self.phase {
            SyncPhase::Fetch1 => match r {
                Err(err) => {
                    self.phase = SyncPhase::Done;
                    bare(Op::Finish(Err(err)))
                },
                Ok(_) => {
                    self.phase = SyncPhase::AbortRebase;
                    bare(Op::Run(strings2("rebase", "--abort")))
                },
            },
            SyncPhase::AbortRebase => {
                self.phase = SyncPhase::AbortMerge;
                bare(Op::Run(strings2("merge", "--abort")))
            },
            SyncPhase::AbortMerge => {
                self.phase = SyncPhase::Ahead;
                let mut range = self.upstream.clone();
                range.append("..HEAD");
                bare(Op::Read(strings2("rev-list", range.as_str())))
            },
            SyncPhase::Ahead => match r {
                Err(err) => {
                    self.phase = SyncPhase::Done;
                    bare(Op::Finish(Err(err)))
                },
                Ok(out) => {
                    let ahead = non_empty_lines_of(out.as_str());
                    if ahead.len() > 0 {
                        self.phase = SyncPhase::Capture2;
                        with_note(self.kept_text(), Op::Capture)
                    } else {
                        self.phase = SyncPhase::Dirty;
                        bare(Op::Read(strings3("status", "--porcelain", "--untracked-files=no")))
                    }
                },
            },
            SyncPhase::Dirty => match r {
                Err(err) => {
                    self.phase = SyncPhase::Done;
                    bare(Op::Finish(Err(err)))
                },
                Ok(out) => {
                    let changed = non_empty_lines_of(out.as_str());
                    if changed.len() > 0 {
                        self.phase = SyncPhase::Capture2;
                        with_note(self.kept_text(), Op::Capture)
                    } else {
                        self.phase = SyncPhase::Reset;
                        bare(Op::Run(strings3("reset", "--hard", self.upstream.as_str())))
                    }
                },
            },
            SyncPhase::Reset => match r {
                Err(err) => {
                    self.phase = SyncPhase::Done;
                    bare(Op::Finish(Err(err)))
                },
                Ok(_) => {
                    self.phase = SyncPhase::Capture2;
                    let mut note = String::from_str("memo: synchronized ");
                    note.append(self.remote.as_str());
                    note.append("/");
                    note.append(self.branch.as_str());
                    note.append(" (local changes reset)");
                    with_note(note, Op::Capture)
                },
            },
            SyncPhase::Add => match r {
                Err(err) => {
                    self.phase = SyncPhase::Done;
                    bare(Op::Finish(Err(err)))
                },
                Ok(_) => {
                    self.phase = SyncPhase::Commit;
                    bare(Op::Run(commit_arguments(&self.paths, self.message.as_str())))
                },
            },
            SyncPhase::Commit => match r {
                Err(err) => {
                    self.phase = SyncPhase::Done;
                    bare(Op::Finish(Err(err)))
                },
                Ok(_) => {
                    let count = self.paths.len();
                    let mut committed = String::from_str("memo: committed ");
                    let digits = decimal(count as u128);
                    committed.append(digits.as_str());
                    committed.append(" file(s)");
                    match &self.before.upstream {
                        None => {
                            self.phase = SyncPhase::Done;
                            let mut notes: Vec<String> = Vec::new();
                            push_text(&mut notes, committed);
                            push_text(
                                &mut notes,
                                String::from_str(
                                    "memo: committed locally; no upstream configured, push skipped",
                                ),
                            );
                            assert(texts(notes@) =~= seq![
                                committed_note(texts(self.paths@).len()),
                                local_only_note(),
                            ]);
                            Action { notes, op: Op::Finish(Ok(())) }
                        },
                        Some(u) => {
                            let (remote, branch) = remote_and_branch(
                                u.as_str(),
                                self.before.branch.as_str(),
                            );
                            let args = push(remote.as_str(), branch.as_str());
                            self.upstream = u.clone();
                            self.remote = remote;
                            self.branch = branch;
                            self.phase = SyncPhase::Push1;
                            with_note(committed, Op::Run(args))
                        },
                    }
                },
            },
            SyncPhase::Push1 => match r {
                Ok(_) => {
                    self.phase = SyncPhase::Done;
                    let mut note = String::from_str("memo: pushed ");
                    note.append(self.remote.as_str());
                    note.append("/");
                    note.append(self.branch.as_str());
                    with_note(note, Op::Finish(Ok(())))
                },
                Err(_) => {
                    self.phase = SyncPhase::Fetch2;
                    let note = String::from_str(
                        "memo: push raced with a remote update; fetching and rebasing before retry",
                    );
                    with_note(note, Op::Run(strings2("fetch", self.remote.as_str())))
                },
            },
            SyncPhase::Fetch2 => match r {
                Err(err) => {
                    self.phase = SyncPhase::Done;
                    bare(Op::Finish(Err(err)))
                },
                Ok(_) => {
                    let mut target = self.remote.clone();
                    target.append("/");
                    target.append(self.branch.as_str());
                    let repo = self.repo.clone();
                    assert(repo@ == self.repo@);
                    let (machine, a) = rebase_with_auto_resolution(
                        repo,
                        target.as_str(),
                        copy_paths(&self.memo),
                    );
                    self.rebase = machine;
                    self.phase = SyncPhase::Rebasing;
                    a
                },
            },
            SyncPhase::Rebasing => {
                let ghost before_rebase = self.rebase;
                let ra = self.rebase.step(r);
                proof {
                    law_rebase_abort_reports_first_error(
                        before_rebase,
                        outcome_view(r),
                        self.rebase,
                        ra@,
                    );
                }
                let ghost rav = ra@;
                let a = match ra.op {
                    Op::Finish(Ok(())) => {
                        self.phase = SyncPhase::Push2;
                        bare(Op::Run(push(self.remote.as_str(), self.branch.as_str())))
                    },
                    Op::Finish(Err(err)) => {
                        self.phase = SyncPhase::Done;
                        bare(Op::Finish(Err(err)))
                    },
                    _ => ra,
                };
                assert(before_rebase.next(outcome_view(r), self.rebase, rav));
                a
            },
            SyncPhase::Push2 => match r {
                Err(err) => {
                    self.phase = SyncPhase::Done;
                    bare(Op::Finish(Err(err)))
                },
                Ok(_) => {
                    self.phase = SyncPhase::Done;
                    let mut note = String::from_str("memo: pushed ");
                    note.append(self.remote.as_str());
                    note.append("/");
                    note.append(self.branch.as_str());
                    note.append(" after fetch/rebase");
                    with_note(note, Op::Finish(Ok(())))
                },
            },
            _ => bare(Op::Finish(Ok(()))),
        }
    }

    /// The next state and action of a synchronisation after event `e`.
    pub open spec fn next(self, e: Event, n: SyncRun, a: ActionView) -> bool {
        let done = SyncRun { phase: SyncPhase::Done, ..self };
        let paths = texts(self.paths@);
        match e {
            Event::Captured(st) => match self.phase {
                SyncPhase::Capture1 => match st.upstream {
                    None => n == SyncRun { before: st, phase: SyncPhase::Add, ..self } && a == plain(
                        OpView::Run(add_args(paths)),
                    ),
                    Some(u) => {
                        let rb = remote_split(u@, st.branch@);
                        &&& n == SyncRun {
                            before: st,
                            upstream: n.upstream,
                            remote: n.remote,
                            branch: n.branch,
                            phase: SyncPhase::Fetch1,
                            ..self
                        }
                        &&& n.upstream@ == u@
                        &&& (n.remote@, n.branch@) == rb
                        &&& a == plain(OpView::Run(seq!["fetch"@, rb.0]))
                    },
                },
                SyncPhase::Capture2 => n == SyncRun { before: st, phase: SyncPhase::Add, ..self }
                    && a == plain(OpView::Run(add_args(paths))),
                _ => false,
            },
            Event::Output(r) => match self.phase {
                SyncPhase::Fetch1 => match r {
                    Err(err) => n == done && a == plain(OpView::Finish(Err(err@))),
                    Ok(_) => n == SyncRun { phase: SyncPhase::AbortRebase, ..self } && a == plain(
                        OpView::Run(abort_args()),
                    ),
                },
                SyncPhase::AbortRebase => n == SyncRun { phase: SyncPhase::AbortMerge, ..self }
                    && a == plain(OpView::Run(seq!["merge"@, "--abort"@])),
                SyncPhase::AbortMerge => n == SyncRun { phase: SyncPhase::Ahead, ..self } && a
                    == plain(OpView::Read(seq!["rev-list"@, self.upstream@ + "..HEAD"@])),
                SyncPhase::Ahead => match r {
                    Err(err) => n == done && a == plain(OpView::Finish(Err(err@))),
                    Ok(out) => if non_empty_lines(out@).len() > 0 {
                        n == SyncRun { phase: SyncPhase::Capture2, ..self } && a == noted(
                            kept_note(self.upstream@),
                            OpView::Capture,
                        )
                    } else {
                        n == SyncRun { phase: SyncPhase::Dirty, ..self } && a == plain(
                            OpView::Read(seq!["status"@, "--porcelain"@, "--untracked-files=no"@]),
                        )
                    },
                },
                SyncPhase::Dirty => match r {
                    Err(err) => n == done && a == plain(OpView::Finish(Err(err@))),
                    Ok(out) => if non_empty_lines(out@).len() > 0 {
                        n == SyncRun { phase: SyncPhase::Capture2, ..self } && a == noted(
                            kept_note(self.upstream@),
                            OpView::Capture,
                        )
                    } else {
                        n == SyncRun { phase: SyncPhase::Reset, ..self } && a == plain(
                            OpView::Run(seq!["reset"@, "--hard"@, self.upstream@]),
                        )
                    },
                },
                SyncPhase::Reset => match r {
                    Err(err) => n == done && a == plain(OpView::Finish(Err(err@))),
                    Ok(_) => n == SyncRun { phase: SyncPhase::Capture2, ..self } && a == noted(
                        synchronized_note(self.remote@, self.branch@),
                        OpView::Capture,
                    ),
                },
                SyncPhase::Add => match r {
                    Err(err) => n == done && a == plain(OpView::Finish(Err(err@))),
                    Ok(_) => n == SyncRun { phase: SyncPhase::Commit, ..self } && a == plain(
                        OpView::Run(commit_args(paths, self.message@)),
                    ),
                },
                SyncPhase::Commit => match r {
                    Err(err) => n == done && a == plain(OpView::Finish(Err(err@))),
                    Ok(_) => match self.before.upstream {
                        None => n == done && a == ActionView {
                            notes: seq![committed_note(paths.len()), local_only_note()],
                            op: OpView::Finish(Ok(())),
                        },
                        Some(u) => {
                            let rb = remote_split(u@, self.before.branch@);
                            &&& n == SyncRun {
                                upstream: n.upstream,
                                remote: n.remote,
                                branch: n.branch,
                                phase: SyncPhase::Push1,
                                ..self
                            }
                            &&& n.upstream@ == u@
                            &&& (n.remote@, n.branch@) == rb
                            &&& a == noted(
                                committed_note(paths.len()),
                                OpView::Run(push_args(rb.0, rb.1)),
                            )
                        },
                    },
                },
                SyncPhase::Push1 => match r {
                    Ok(_) => n == done && a == noted(
                        pushed_note(self.remote@, self.branch@),
                        OpView::Finish(Ok(())),
                    ),
                    Err(_) => n == SyncRun { phase: SyncPhase::Fetch2, ..self } && a == noted(
                        raced_note(),
                        OpView::Run(seq!["fetch"@, self.remote@]),
                    ),
                },
                SyncPhase::Fetch2 => match r {
                    Err(err) => n == done && a == plain(OpView::Finish(Err(err@))),
                    Ok(_) => {
                        let target = self.remote@ + "/"@ + self.branch@;
                        &&& n == SyncRun { rebase: n.rebase, phase: SyncPhase::Rebasing, ..self }
                        &&& n.rebase.phase is FirstRebase
                        &&& n.rebase.round == 0
                        &&& n.rebase.wf()
                        &&& n.rebase.upstream@ == target
                        &&& texts(n.rebase.repo@) == texts(self.repo@)
                        &&& path_texts(n.rebase.memo@) == path_texts(self.memo@)
                        &&& a == plain(OpView::Run(seq!["rebase"@, target]))
                    },
                },
                SyncPhase::Rebasing => exists|ra: ActionView|
                    {
                        &&& #[trigger] self.rebase.next(outcome_view(r), n.rebase, ra)
                        &&& n == SyncRun { rebase: n.rebase, phase: n.phase, ..self }
                        &&& match ra.op {
                            OpView::Finish(Ok(())) => n.phase is Push2 && a == plain(
                                OpView::Run(push_args(self.remote@, self.branch@)),
                            ),
                            OpView::Finish(Err(err)) => n.phase is Done && a == plain(
                                OpView::Finish(Err(err)),
                            ),
                            _ => n.phase is Rebasing && a == ra,
                        }
                    },
                SyncPhase::Push2 => match r {
                    Err(err) => n == done && a == plain(OpView::Finish(Err(err@))),
                    Ok(_) => n == done && a == noted(
                        pushed_after_rebase_note(self.remote@, self.branch@),
                        OpView::Finish(Ok(())),
                    ),
                },
                _ => false,
            },
        }
    }
}


/// A copy of a list of paths given by their components.
fn copy_paths(v: &Vec<Vec<String>>) -> (r: Vec<Vec<String>>)
    ensures
        path_texts(r@) == path_texts(v@),
{
    let mut r: Vec<Vec<String>> = Vec::new();
    let mut k: usize = 0;
    while k < v.len()
        invariant
            k <= v@.len(),
            path_texts(r@) == path_texts(v@).take(k as int),
        decreases v@.len() - k,
    {
        let p = v[k].clone();
        assert(p@ == v@[k as int]@);
        let ghost before = r@;
        r.push(p);
        assert(path_texts(r@) =~= path_texts(before).push(texts(p@)));
        assert(path_texts(v@).take(k + 1) =~= path_texts(v@).take(k as int).push(texts(v@[k as int]@)));
        k = k + 1;
    }
    assert(path_texts(v@).take(v@.len() as int) =~= path_texts(v@));
    r
}

/// The action `op`, after the note `note`.
fn with_note(note: String, op: Op) -> (a: Action)
    ensures
        a@ == noted(note@, op_view(op)),
{
    let mut notes: Vec<String> = Vec::new();
    push_text(&mut notes, note);
    assert(texts(notes@) =~= seq![note@]);
    Action { notes, op }
}

/// Appends the texts of `more` to `v`.
fn extend_texts(v: &mut Vec<String>, more: &Vec<String>)
    ensures
        texts(final(v)@) == texts(old(v)@) + texts(more@),
{
    let mut k: usize = 0;
    let ghost start = texts(v@);
    while k < more.len()
        invariant
            k <= more@.len(),
            texts(v@) == start + texts(more@).take(k as int),
        decreases more@.len() - k,
    {
        push_text(v, more[k].clone());
        assert(texts(more@).take(k + 1) =~= texts(more@).take(k as int).push(more@[k as int]@));
        k = k + 1;
    }
    assert(texts(more@).take(more@.len() as int) =~= texts(more@));
}

/// The arguments that stage the note's files.
fn add_arguments(paths: &Vec<String>) -> (r: Vec<String>)
    ensures
        texts(r@) == add_args(texts(paths@)),
{
    let mut r = strings2("add", "--");
    extend_texts(&mut r, paths);
    r
}

/// The arguments that commit the note's files.
fn commit_arguments(paths: &Vec<String>, message: &str) -> (r: Vec<String>)
    ensures
        texts(r@) == commit_args(texts(paths@), message@),
{
    let mut m = String::from_str("memo: ");
    let summary = commit_summary(message);
    m.append(summary.as_str());
    let mut r = strings4("commit", "--only", "--no-verify", "-m");
    push_text(&mut r, m);
    push_text(&mut r, String::from_str("--"));
    extend_texts(&mut r, paths);
    assert(seq!["commit"@, "--only"@, "--no-verify"@, "-m"@].push("memo: "@ + summary_of(message@)).push("--"@) =~= seq!["commit"@, "--only"@, "--no-verify"@, "-m"@, "memo: "@ + summary_of(message@), "--"@]);
    r
}


/// Starts the synchronisation of a note, given the components of the
/// repository directory, the note's files as given to Git, their components,
/// and the note's message; the first action reads the branch state.
pub fn start_sync(repo: Vec<String>, paths: Vec<String>, memo: Vec<Vec<String>>, message: String) -> (r: (
    SyncRun,
    Action,
))
    ensures
        r.0.wf(),
        r.0.phase is Capture1,
        r.0.repo == repo,
        r.0.paths == paths,
        r.0.memo == memo,
        r.0.message == message,
        r.1@ == plain(OpView::Capture),
{
    let idle = Rebase {
        upstream: String::new(),
        repo: Vec::new(),
        memo: Vec::new(),
        first_error: String::new(),
        round: 0,
        conflicts: Vec::new(),
        index: 0,
        phase: RebasePhase::Done,
    };
    let run = SyncRun {
        repo,
        paths,
        memo,
        message,
        before: GitState { branch: String::new(), upstream: None },
        upstream: String::new(),
        remote: String::new(),
        branch: String::new(),
        rebase: idle,
        phase: SyncPhase::Capture1,
    };
    (run, bare(Op::Capture))
}

/// The place of a phase in the order in which a synchronisation goes
/// through them.
pub open spec fn sync_phase_rank(p: SyncPhase) -> int {
    match p {
        SyncPhase::Capture1 => 14,
        SyncPhase::Fetch1 => 13,
        SyncPhase::AbortRebase => 12,
        SyncPhase::AbortMerge => 11,
        SyncPhase::Ahead => 10,
        SyncPhase::Dirty => 9,
        SyncPhase::Reset => 8,
        SyncPhase::Capture2 => 7,
        SyncPhase::Add => 6,
        SyncPhase::Commit => 5,
        SyncPhase::Push1 => 4,
        SyncPhase::Fetch2 => 3,
        SyncPhase::Rebasing => 2,
        SyncPhase::Push2 => 1,
        SyncPhase::Done => 0,
    }
}

/// Law: the synchronisation always comes to an end: each step either
/// finishes it, moves it to a later phase, or, while it rebases, lowers what
/// remains of the conflict resolution. It finishes exactly with a `Finish`
/// action, and it asks for the branch state exactly where it next expects
/// one, so the answer to each action is an event it accepts.
pub proof fn law_sync_progress(s: SyncRun, e: Event, n: SyncRun, a: ActionView)
    requires
        s.wf(),
        !s.is_done(),
        s.accepts(e),
        s.next(e, n, a),
    ensures
        n.wf(),
        n.is_done() <==> a.op is Finish,
        a.op is Capture <==> (n.phase is Capture1 || n.phase is Capture2),
        n.is_done() || sync_phase_rank(n.phase) < sync_phase_rank(s.phase) || (n.phase is Rebasing
            && s.phase is Rebasing && rank_less(rebase_rank(n.rebase), rebase_rank(s.rebase))),
{
    if s.phase is Rebasing {
        if let Event::Output(r) = e {
            let ra = choose|ra: ActionView| #[trigger] s.rebase.next(outcome_view(r), n.rebase, ra)
                && n == SyncRun { rebase: n.rebase, phase: n.phase, ..s } && match ra.op {
                OpView::Finish(Ok(())) => n.phase is Push2 && a == plain(
                    OpView::Run(push_args(s.remote@, s.branch@)),
                ),
                OpView::Finish(Err(err)) => n.phase is Done && a == plain(OpView::Finish(Err(err))),
                _ => n.phase is Rebasing && a == ra,
            };
            law_rebase_progress(s.rebase, outcome_view(r), n.rebase, ra);
            law_rebase_abort_reports_first_error(s.rebase, outcome_view(r), n.rebase, ra);
        }
    }
}


/// Law: the synchronisation resets the branch to its upstream only where no
/// memo changes are pending: the reset is asked for only after the list of
/// uncommitted changes to tracked files came back empty, and that list is
/// asked for only after the list of commits the upstream lacks came back
/// empty.
pub proof fn law_reset_only_without_pending_changes(s: SyncRun, e: Event, n: SyncRun, a: ActionView)
    requires
        s.next(e, n, a),
    ensures
        n.phase is Reset ==> s.phase is Dirty && (e matches Event::Output(Ok(out)) && non_empty_lines(
            out@,
        ).len() == 0),
        n.phase is Dirty ==> s.phase is Ahead && (e matches Event::Output(Ok(out)) && non_empty_lines(
            out@,
        ).len() == 0),
{
}

/// Law: the background worker works on exactly the message and the files it
/// was started with: the command line `--sync MESSAGE PATH...` gives them
/// back, the files staged and committed are exactly those files, and the
/// commit message is `memo: ` and the message's first line.
pub proof fn law_worker_uses_its_arguments(message: Seq<char>, paths: Seq<Seq<char>>)
    requires
        paths.len() >= 1,
    ensures
        crate::cli::command_of(seq!["--sync"@, message] + paths) == Ok::<_, Seq<char>>(
            crate::cli::CommandView::Sync { message, paths },
        ),
        add_args(paths).skip(2) == paths,
        commit_args(paths, message).skip(6) == paths,
        commit_args(paths, message)[4] == "memo: "@ + summary_of(message),
{
    reveal_strlit("--sync");
    reveal_strlit("--version");
    reveal_strlit("--help");
    let args = seq!["--sync"@, message] + paths;
    assert("--sync"@[2] != "--version"@[2]);
    assert("--sync"@[2] != "--help"@[2]);
    assert(args.len() >= 3);
    assert(args[0] == "--sync"@);
    assert(args[1] == message);
    assert(args.skip(2) =~= paths);
    assert(add_args(paths).skip(2) =~= paths);
    assert(commit_args(paths, message).skip(6) =~= paths);
}

} // verus!
