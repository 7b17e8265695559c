//! The command line: what a call asks for.
use vstd::prelude::*;
use crate::tags::{is_valid_tag, normalize_tag, tag_form, texts};
use crate::text::{chars_of, eq_lit, string_from, sub_vec};

verus! {

broadcast use vstd::string::group_string_axioms;

/// What a call asks for.
#[derive(Debug)]
pub enum Command {
    /// Print the version.
    Version,
    /// Print the usage.
    Help,
    /// Synchronise a note in the background: its message and its files.
    Sync { message: String, paths: Vec<String> },
    /// Check the configuration.
    CheckConfig,
    /// Record a note: its normalized tags (repeats kept) and the words of
    /// its message.
    Record { tags: Vec<String>, words: Vec<String> },
}

/// What a `Command` holds.
pub enum CommandView {
    Version,
    Help,
    Sync { message: Seq<char>, paths: Seq<Seq<char>> },
    CheckConfig,
    Record { tags: Seq<Seq<char>>, words: Seq<Seq<char>> },
}

impl View for Command {
    type V = CommandView;

    open spec fn view(&self) -> CommandView {
        match self {
            Command::Version => CommandView::Version,
            Command::Help => CommandView::Help,
            Command::Sync { message, paths } => CommandView::Sync {
                message: message@,
                paths: texts(paths@),
            },
            Command::CheckConfig => CommandView::CheckConfig,
            Command::Record { tags, words } => CommandView::Record {
                tags: texts(tags@),
                words: texts(words@),
            },
        }
    }
}

/// Whether `s` starts with `p`.
pub open spec fn starts_with(s: Seq<char>, p: Seq<char>) -> bool {
    p.len() <= s.len() && s.take(p.len() as int) == p
}

/// The tag an argument of the form `--tag=TAG` or `tag:TAG` gives.
pub open spec fn inline_tag(arg: Seq<char>) -> Option<Seq<char>> {
    if starts_with(arg, "--tag="@) {
        Some(arg.skip("--tag="@.len() as int))
    } else if starts_with(arg, "tag:"@) {
        Some(arg.skip("tag:"@.len() as int))
    } else {
        None
    }
}

/// Adds `tag` in front of the tags of a reading.
pub open spec fn with_tag(tag: Seq<char>, r: Result<(Seq<Seq<char>>, Seq<Seq<char>>), Seq<char>>) -> Result<
    (Seq<Seq<char>>, Seq<Seq<char>>),
    Seq<char>,
> {
    match r {
        Ok((t, w)) => Ok((seq![tag] + t, w)),
        Err(e) => Err(e),
    }
}

/// Reads the tag options at the front of the arguments: the normalized tags
/// and the words that follow them, or the first error.
pub open spec fn read_tags(args: Seq<Seq<char>>) -> Result<
    (Seq<Seq<char>>, Seq<Seq<char>>),
    Seq<char>,
>
    decreases args.len(),
{
    if args.len() == 0 {
        Ok((Seq::empty(), Seq::empty()))
    } else if args[0] == "--tag"@ {
        if args.len() < 2 {
            Err("--tag requires a value"@)
        } else if !is_valid_tag(tag_form(args[1])) {
            Err("invalid tag: "@ + args[1])
        } else {
            with_tag(tag_form(args[1]), read_tags(args.skip(2)))
        }
    } else {
        match inline_tag(args[0]) {
            Some(raw) => if !is_valid_tag(tag_form(raw)) {
                Err("invalid tag: "@ + raw)
            } else {
                with_tag(tag_form(raw), read_tags(args.skip(1)))
            },
            None => Ok((Seq::empty(), args)),
        }
    }
}

/// What the arguments (after the program's name) ask for.
pub open spec fn command_of(args: Seq<Seq<char>>) -> Result<CommandView, Seq<char>> {
    if args.len() > 0 && args[0] == "--version"@ {
        Ok(CommandView::Version)
    } else if args.len() > 0 && args[0] == "--help"@ {
        Ok(CommandView::Help)
    } else if args.len() > 0 && args[0] == "--sync"@ {
        if args.len() < 3 {
            Err("background sync requires a message and at least one path"@)
        } else {
            Ok(CommandView::Sync { message: args[1], paths: args.skip(2) })
        }
    } else if args.len() > 0 && args[0] == "--check-config"@ {
        if args.len() != 1 {
            Err("--check-config does not accept additional arguments"@)
        } else {
            Ok(CommandView::CheckConfig)
        }
    } else {
        record_of(read_tags(args))
    }
}

/// The note a reading of tags and words asks to record: refused where no
/// word of a message remains.
pub open spec fn record_of(r: Result<(Seq<Seq<char>>, Seq<Seq<char>>), Seq<char>>) -> Result<
    CommandView,
    Seq<char>,
> {
    match r {
        Err(e) => Err(e),
        Ok((t, w)) => if w.len() == 0 {
            Err("a memo message is required"@)
        } else {
            Ok(CommandView::Record { tags: t, words: w })
        },
    }
}

/// Whether `v` starts with the characters of `lit`; where it does, the
/// rest of `v`.
fn strip_lit(v: &Vec<char>, lit: &str) -> (r: Option<Vec<char>>)
    ensures
        r is Some <==> starts_with(v@, lit@),
        r matches Some(rest) ==> rest@ == v@.skip(lit@.len() as int),
{
    let p = chars_of(lit);
    if p.len() > v.len() {
        return None;
    }
    let mut k: usize = 0;
    while k < p.len()
        invariant
            k <= p@.len() <= v@.len(),
            p@ == lit@,
            forall|i: int| 0 <= i < k ==> v@[i] == p@[i],
        decreases p@.len() - k,
    {
        if v[k] != p[k] {
            assert(v@.take(p@.len() as int)[k as int] != p@[k as int]);
            return None;
        }
        k = k + 1;
    }
    assert(v@.take(p@.len() as int) =~= p@);
    let rest = sub_vec(v, p.len(), v.len());
    assert(rest@ =~= v@.skip(lit@.len() as int));
    Some(rest)
}

/// The strings of `v[from..]`.
fn tail_strings(v: &Vec<String>, from: usize) -> (r: Vec<String>)
    requires
        from <= v@.len(),
    ensures
        texts(r@) == texts(v@).skip(from as int),
{
    let mut r: Vec<String> = Vec::new();
    let mut k = from;
    while k < v.len()
        invariant
            from <= k <= v@.len(),
            texts(r@) == texts(v@).subrange(from as int, k as int),
        decreases v@.len() - k,
    {
        let ghost before = r@;
        r.push(v[k].clone());
        assert(texts(r@) =~= texts(before).push(v@[k as int]@));
        assert(texts(v@).subrange(from as int, k + 1) =~= texts(v@).subrange(from as int, k as int).push(v@[k as int]@));
        k = k + 1;
    }
    assert(texts(v@).subrange(from as int, v@.len() as int) =~= texts(v@).skip(from as int));
    r
}

/// Reads the command line (the arguments after the program's name): a
/// leading `--version`, `--help`, `--sync MESSAGE PATH...` or
/// `--check-config`, or else any number of tags given as `--tag TAG`,
/// `--tag=TAG` or `tag:TAG`, then the words of the message.
pub fn parse_command(args: &Vec<String>) -> (r: Result<Command, String>)
    ensures
        match r {
            Ok(c) => command_of(texts(args@)) == Ok::<_, Seq<char>>(c@),
            Err(e) => command_of(texts(args@)) == Err::<CommandView, _>(e@),
        },
{
    let ghost a = texts(args@);
    if args.len() > 0 {
        let first = chars_of(args[0].as_str());
        assert(a[0] == args@[0]@);
        if eq_lit(&first, "--version") {
            return Ok(Command::Version);
        }
        if eq_lit(&first, "--help") {
            return Ok(Command::Help);
        }
        if eq_lit(&first, "--sync") {
            if args.len() < 3 {
                return Err(String::from_str("background sync requires a message and at least one path"));
            }
            assert(a[1] == args@[1]@);
            let paths = tail_strings(args, 2);
            return Ok(Command::Sync { message: args[1].clone(), paths });
        }
        if eq_lit(&first, "--check-config") {
            if args.len() != 1 {
                return Err(String::from_str("--check-config does not accept additional arguments"));
            }
            return Ok(Command::CheckConfig);
        }
    }
    let mut tags: Vec<String> = Vec::new();
    let mut i: usize = 0;
    assert(a.skip(0) =~= a);
    assert(command_of(a) == record_of(read_tags(a)));
    loop
        invariant
            i <= args@.len(),
            a == texts(args@),
            command_of(a) == record_of(read_tags(a)),
            read_tags(a) == match read_tags(a.skip(i as int)) {
                Ok((t, w)) => Ok((texts(tags@) + t, w)),
                Err(e) => Err::<(Seq<Seq<char>>, Seq<Seq<char>>), Seq<char>>(e),
            },
        ensures
            i <= args@.len(),
            read_tags(a.skip(i as int)) == Ok::<_, Seq<char>>(
                (Seq::<Seq<char>>::empty(), a.skip(i as int)),
            ),
        decreases args@.len() - i,
    {
        if i >= args.len() {
            assert(a.skip(i as int) =~= Seq::<Seq<char>>::empty());
            break;
        }
        let ghost rest = a.skip(i as int);
        assert(rest[0] == args@[i as int]@);
        let arg = chars_of(args[i].as_str());
        if eq_lit(&arg, "--tag") {
            if i + 1 >= args.len() {
                return Err(String::from_str("--tag requires a value"));
            }
            assert(rest[1] == args@[i + 1]@);
            match normalize_tag(args[i + 1].as_str()) {
                Err(e) => {
                    return Err(e);
                },
                Ok(t) => {
                    let ghost before = tags@;
                    tags.push(t);
                    assert(texts(tags@) =~= texts(before).push(t@));
                    assert(rest.skip(2) =~= a.skip(i + 2));
                    proof {
                        let inner = read_tags(a.skip(i + 2));
                        match inner {
                            Ok((t2, w2)) => {
                                assert(texts(before) + (seq![t@] + t2) =~= texts(tags@) + t2);
                            },
                            Err(_) => {},
                        }
                    }
                    i = i + 2;
                }
            }
        } else {
            let inline = match strip_lit(&arg, "--tag=") {
                Some(rest_chars) => Some(rest_chars),
                None => strip_lit(&arg, "tag:"),
            };
            match inline {
                None => {
                    assert(inline_tag(rest[0]) is None);
                    break;
                },
                Some(raw_chars) => {
                    let raw = string_from(&raw_chars);
                    assert(inline_tag(rest[0]) == Some(raw@));
                    match normalize_tag(raw.as_str()) {
                        Err(e) => {
                            return Err(e);
                        },
                        Ok(t) => {
                            let ghost before = tags@;
                            tags.push(t);
                            assert(texts(tags@) =~= texts(before).push(t@));
                            assert(rest.skip(1) =~= a.skip(i + 1));
                            proof {
                                let inner = read_tags(a.skip(i + 1));
                                match inner {
                                    Ok((t2, w2)) => {
                                        assert(texts(before) + (seq![t@] + t2) =~= texts(tags@) + t2);
                                    },
                                    Err(_) => {},
                                }
                            }
                            i = i + 1;
                        },
                    }
                },
            }
        }
    }
    let words = tail_strings(args, i);
    assert(texts(tags@) + Seq::<Seq<char>>::empty() =~= texts(tags@));
    if words.len() == 0 {
        return Err(String::from_str("a memo message is required"));
    }
    Ok(Command::Record { tags, words })
}


/// The command line that starts the background synchronisation of a note:
/// `--sync`, the message, then the note's files.
pub fn sync_arguments(message: &str, paths: &Vec<String>) -> (r: Vec<String>)
    ensures
        texts(r@) == seq!["--sync"@, message@] + texts(paths@),
{
    let mut r: Vec<String> = Vec::new();
    r.push(String::from_str("--sync"));
    r.push(String::from_str(message));
    assert(texts(r@) =~= seq!["--sync"@, message@] + texts(paths@).take(0));
    let mut k: usize = 0;
    while k < paths.len()
        invariant
            k <= paths@.len(),
            texts(r@) == seq!["--sync"@, message@] + texts(paths@).take(k as int),
        decreases paths@.len() - k,
    {
        let ghost before = r@;
        r.push(paths[k].clone());
        assert(texts(r@) =~= texts(before).push(paths@[k as int]@));
        assert(texts(paths@).take(k + 1) =~= texts(paths@).take(k as int).push(paths@[k as int]@));
        k = k + 1;
    }
    assert(texts(paths@).take(paths@.len() as int) =~= texts(paths@));
    r
}

} // verus!
