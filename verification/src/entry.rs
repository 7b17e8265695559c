//! A note: the environment it was written in, its text with its front
//! matter, its content-derived name, and where its copies go.
use vstd::prelude::*;
use crate::tags::{first_occurrences, is_name_char, is_name_char_exec, is_plain_name_char, lemma_plain_is_name_char, texts, unique_tags};
use crate::text::{chars_of, find_char, is_space, push_char, split_on, string_from, sub_vec, trim, trim_seq};
use sha2::Digest;

verus! {

broadcast use vstd::string::group_string_axioms;

/// `parts` joined with `sep` between each two (`[String]::join`).
pub open spec fn join_seq(parts: Seq<Seq<char>>, sep: Seq<char>) -> Seq<char>
    decreases parts.len(),
{
    if parts.len() == 0 {
        Seq::empty()
    } else if parts.len() == 1 {
        parts[0]
    } else {
        join_seq(parts.drop_last(), sep) + sep + parts.last()
    }
}

/// Joins `parts` with `sep` between each two.
pub fn join_texts(parts: &Vec<String>, sep: &str) -> (r: String)
    ensures
        r@ == join_seq(texts(parts@), sep@),
{
    let mut r = String::new();
    let mut i: usize = 0;
    while i < parts.len()
        invariant
            i <= parts@.len(),
            r@ == join_seq(texts(parts@).take(i as int), sep@),
        decreases parts@.len() - i,
    {
        let ghost before = texts(parts@).take(i as int);
        let ghost after = texts(parts@).take(i + 1);
        assert(after.drop_last() =~= before);
        assert(after.last() == parts@[i as int]@);
        if i > 0 {
            r.append(sep);
        } else {
            assert(before.len() == 0);
            assert(r@ =~= Seq::<char>::empty());
        }
        r.append(parts[i].as_str());
        i = i + 1;
    }
    assert(texts(parts@).take(parts@.len() as int) =~= texts(parts@));
    r
}

/// The name used where no environment name can be found.
pub open spec fn unknown_environment() -> Seq<char> {
    "unknown-environment"@
}

/// `raw` trimmed, with each character that may not stand in a name replaced
/// by `_`.
pub open spec fn slug_chars(raw: Seq<char>) -> Seq<char> {
    trim_seq(raw).map_values(|c: char| if is_name_char(c) { c } else { '_' })
}

/// The environment name made of `raw`: its slug, or `unknown-environment`
/// where the slug is empty.
pub open spec fn environment_slug(raw: Seq<char>) -> Seq<char> {
    if slug_chars(raw).len() == 0 {
        unknown_environment()
    } else {
        slug_chars(raw)
    }
}

/// The raw environment name: the configured one, else the `MEMO_ENVIRONMENT`
/// value, else `wsl-` and the WSL distribution name, else the short host name,
/// else `unknown-environment`.
pub open spec fn environment_source(
    configured: Option<Seq<char>>,
    memo_env: Option<Seq<char>>,
    wsl: Option<Seq<char>>,
    hostname: Option<Seq<char>>,
) -> Seq<char> {
    match configured {
        Some(c) => c,
        None => match memo_env {
            Some(m) => m,
            None => match wsl {
                Some(w) => "wsl-"@ + w,
                None => match hostname {
                    Some(h) => h,
                    None => unknown_environment(),
                },
            },
        },
    }
}

/// The view of an optional string argument.
pub open spec fn opt_view(o: Option<&str>) -> Option<Seq<char>> {
    match o {
        Some(s) => Some(s@),
        None => None,
    }
}

/// Law: an environment name is never empty and holds only ASCII letters,
/// digits, `.`, `_` and `-`, so it names one directory.
pub proof fn law_environment_name_is_safe(raw: Seq<char>)
    ensures
        environment_slug(raw).len() > 0,
        forall|i: int|
            0 <= i < environment_slug(raw).len() ==> is_name_char(#[trigger] environment_slug(raw)[i]),
{
    reveal_strlit("unknown-environment");
    let s = slug_chars(raw);
    assert forall|i: int| 0 <= i < s.len() implies is_name_char(#[trigger] s[i]) by {
        let c = trim_seq(raw)[i];
        assert(s[i] == (if is_name_char(c) { c } else { '_' }));
    }
}

/// Law: a name made only of ASCII letters, digits, `.`, `_` and `-` (after
/// trimming) is kept as it is: the environment a note is written in is that
/// name, character for character.
pub proof fn law_plain_environment_kept(raw: Seq<char>)
    requires
        trim_seq(raw).len() > 0,
        forall|i: int| 0 <= i < trim_seq(raw).len() ==> is_plain_name_char(#[trigger] trim_seq(raw)[i]),
    ensures
        environment_slug(raw) == trim_seq(raw),
{
    let t = trim_seq(raw);
    let s = slug_chars(raw);
    assert forall|i: int| 0 <= i < s.len() implies #[trigger] s[i] == t[i] by {
        lemma_plain_is_name_char(t[i]);
    }
    assert(s =~= t);
}

/// Whether the host name is needed to name the environment: none of the
/// sources before it is set.
pub fn needs_hostname(configured: Option<&str>, memo_env: Option<&str>, wsl: Option<&str>) -> (b:
    bool)
    ensures
        b == (configured is None && memo_env is None && wsl is None),
{
    configured.is_none() && memo_env.is_none() && wsl.is_none()
}

/// The name of the environment a note is written in, taken from the first
/// source that is set, made safe for a directory name.
pub fn configured_environment(
    configured: Option<&str>,
    memo_env: Option<&str>,
    wsl: Option<&str>,
    hostname: Option<&str>,
) -> (r: String)
    ensures
        r@ == environment_slug(
            environment_source(
                opt_view(configured),
                opt_view(memo_env),
                opt_view(wsl),
                opt_view(hostname),
            ),
        ),
{
    let raw: String = match configured {
        Some(c) => String::from_str(c),
        None => match memo_env {
            Some(m) => String::from_str(m),
            None => match wsl {
                Some(w) => {
                    let mut s = String::from_str("wsl-");
                    s.append(w);
                    s
                },
                None => match hostname {
                    Some(h) => String::from_str(h),
                    None => String::from_str("unknown-environment"),
                },
            },
        },
    };
    let t = trim(raw.as_str());
    let v = chars_of(t.as_str());
    let mut slug = String::new();
    let mut i: usize = 0;
    let ghost mapped = trim_seq(raw@).map_values(|c: char| if is_name_char(c) { c } else { '_' });
    while i < v.len()
        invariant
            i <= v@.len(),
            v@ == trim_seq(raw@),
            mapped == trim_seq(raw@).map_values(|c: char| if is_name_char(c) { c } else { '_' }),
            slug@ == mapped.take(i as int),
        decreases v@.len() - i,
    {
        let c = v[i];
        let d = if is_name_char_exec(c) {
            c
        } else {
            '_'
        };
        push_char(&mut slug, d);
        assert(mapped.take(i + 1) =~= mapped.take(i as int).push(d));
        i = i + 1;
    }
    assert(mapped.take(v@.len() as int) =~= mapped);
    if v.len() == 0 {
        String::from_str("unknown-environment")
    } else {
        slug
    }
}


/// The date of a timestamp: what stands before its first `T`.
pub open spec fn date_of(timestamp: Seq<char>) -> Seq<char> {
    timestamp.take(crate::text::first_index(timestamp, 'T'))
}

/// The date part of a timestamp such as `2026-08-22T10:30:00+09:00`, or
/// `None` where the timestamp holds no `T`.
pub fn entry_date(timestamp: &str) -> (r: Option<String>)
    ensures
        r is None <==> !timestamp@.contains('T'),
        r matches Some(d) ==> d@ == date_of(timestamp@),
{
    let v = chars_of(timestamp);
    let t = find_char(&v, 0, 'T');
    assert(v@.skip(0) =~= v@);
    if t == v.len() {
        assert(!timestamp@.contains('T'));
        None
    } else {
        let d = sub_vec(&v, 0, t);
        assert(d@ =~= date_of(timestamp@));
        Some(string_from(&d))
    }
}

/// A string holding the given text.
fn text_string(s: &str) -> (r: String)
    ensures
        r@ == s@,
{
    String::from_str(s)
}

/// The YAML escape of one character inside double quotes: a backslash
/// before `\` and `"`, `\n`, `\r` and `\t` for those control characters,
/// `\x` and two hex digits for the other C0 control characters and DEL.
pub open spec fn escape_char(c: char) -> Seq<char> {
    if c == '\\' {
        seq!['\\', '\\']
    } else if c == '"' {
        seq!['\\', '"']
    } else if c == '\n' {
        seq!['\\', 'n']
    } else if c == '\r' {
        seq!['\\', 'r']
    } else if c == '\t' {
        seq!['\\', 't']
    } else if (c as u32) < 0x20 || (c as u32) == 0x7f {
        seq!['\\', 'x', hex_digit((c as u32) as nat / 16), hex_digit((c as u32) as nat % 16)]
    } else {
        seq![c]
    }
}

/// `s` with each character escaped for a YAML double-quoted string.
pub open spec fn escape_seq(s: Seq<char>) -> Seq<char>
    decreases s.len(),
{
    if s.len() == 0 {
        Seq::empty()
    } else {
        escape_seq(s.drop_last()) + escape_char(s.last())
    }
}

/// `s` as a YAML double-quoted string.
pub open spec fn quoted(s: Seq<char>) -> Seq<char> {
    seq!['"'] + escape_seq(s) + seq!['"']
}

/// Writes `s` as a YAML double-quoted string.
pub fn yaml_quote(s: &str) -> (r: String)
    ensures
        r@ == quoted(s@),
{
    let v = chars_of(s);
    let mut r = String::new();
    push_char(&mut r, '"');
    let ghost start = r@;
    let mut i: usize = 0;
    while i < v.len()
        invariant
            i <= v@.len(),
            v@ == s@,
            start == seq!['"'],
            r@ == start + escape_seq(v@.take(i as int)),
        decreases v@.len() - i,
    {
        let c = v[i];
        assert(v@.take(i + 1).drop_last() =~= v@.take(i as int));
        assert(v@.take(i + 1).last() == c);
        let ghost before = r@;
        if c == '\\' {
            push_char(&mut r, '\\');
            push_char(&mut r, '\\');
        } else if c == '"' {
            push_char(&mut r, '\\');
            push_char(&mut r, '"');
        } else if c == '\n' {
            push_char(&mut r, '\\');
            push_char(&mut r, 'n');
        } else if c == '\r' {
            push_char(&mut r, '\\');
            push_char(&mut r, 'r');
        } else if c == '\t' {
            push_char(&mut r, '\\');
            push_char(&mut r, 't');
        } else if (c as u32) < 0x20 || (c as u32) == 0x7f {
            let b = (c as u32) as u8;
            push_char(&mut r, '\\');
            push_char(&mut r, 'x');
            push_char(&mut r, hex_digit_char(b / 16));
            push_char(&mut r, hex_digit_char(b % 16));
        } else {
            push_char(&mut r, c);
        }
        assert(r@ =~= before + escape_char(c));
        assert(start + escape_seq(v@.take(i + 1)) =~= start + escape_seq(v@.take(i as int))
            + escape_char(c));
        i = i + 1;
    }
    assert(v@.take(v@.len() as int) =~= v@);
    push_char(&mut r, '"');
    assert(r@ =~= quoted(s@));
    r
}

/// The tags of a comma-separated tag text: none for an empty text.
pub open spec fn tag_list(tags: Seq<char>) -> Seq<Seq<char>> {
    if tags.len() == 0 {
        Seq::empty()
    } else {
        split_on(tags, ',')
    }
}

/// One `  - "tag"` item line (each after a line break) per tag.
pub open spec fn tag_items(tags: Seq<Seq<char>>) -> Seq<char>
    decreases tags.len(),
{
    if tags.len() == 0 {
        Seq::empty()
    } else {
        tag_items(tags.drop_last()) + "\n  - "@ + quoted(tags.last())
    }
}

/// The `tags` field: a list of quoted tags, or `[]` where there is none.
pub open spec fn tags_field(tags: Seq<Seq<char>>) -> Seq<char> {
    if tags.len() == 0 {
        "tags: []"@
    } else {
        "tags:"@ + tag_items(tags)
    }
}

/// The texts of each key and value.
pub open spec fn pairs_view(g: Seq<(String, String)>) -> Seq<(Seq<char>, Seq<char>)> {
    g.map_values(|p: (String, String)| (p.0@, p.1@))
}

/// One indented `key: "value"` line (each after a line break) per pair.
pub open spec fn git_items(g: Seq<(Seq<char>, Seq<char>)>) -> Seq<char>
    decreases g.len(),
{
    if g.len() == 0 {
        Seq::empty()
    } else {
        git_items(g.drop_last()) + "\n  "@ + g.last().0 + ": "@ + quoted(g.last().1)
    }
}

/// The `git` block of the front matter.
pub open spec fn git_block(g: Seq<(Seq<char>, Seq<char>)>) -> Seq<char> {
    "\ngit:"@ + git_items(g)
}

/// The fields every note has: the timestamp, the environment, the tags and
/// the working directory.
pub open spec fn base_fields(
    timestamp: Seq<char>,
    environment: Seq<char>,
    tags: Seq<char>,
    cwd: Seq<char>,
) -> Seq<char> {
    "timestamp: "@ + quoted(timestamp) + "\nenvironment: "@ + quoted(environment) + "\n"@
        + tags_field(tag_list(tags)) + "\ncwd: "@ + quoted(cwd)
}

/// The front matter that memo writes itself: the base fields, then the Git
/// block where there is one. It has no `---` markers and no final line break.
pub open spec fn front_matter(
    timestamp: Seq<char>,
    environment: Seq<char>,
    tags: Seq<char>,
    cwd: Seq<char>,
    git: Option<Seq<(Seq<char>, Seq<char>)>>,
) -> Seq<char> {
    base_fields(timestamp, environment, tags, cwd) + match git {
        Some(g) => git_block(g),
        None => Seq::empty(),
    }
}

/// The metadata block of a note: the front matter between `---` lines.
pub open spec fn metadata_block(front: Seq<char>) -> Seq<char> {
    "---\n"@ + front + "\n---\n"@
}

/// The complete text of a note: its metadata block, a blank line, and the
/// message with a final line break.
pub open spec fn note_seq(front: Seq<char>, message: Seq<char>) -> Seq<char> {
    metadata_block(front) + "\n"@ + message + "\n"@
}

/// The text of a note that memo writes itself.
pub open spec fn entry_text(
    timestamp: Seq<char>,
    environment: Seq<char>,
    tags: Seq<char>,
    cwd: Seq<char>,
    git: Option<Seq<(Seq<char>, Seq<char>)>>,
    message: Seq<char>,
) -> Seq<char> {
    note_seq(front_matter(timestamp, environment, tags, cwd, git), message)
}

/// The optional Git fields of a note, by their texts.
pub open spec fn git_view(git: Option<&Vec<(String, String)>>) -> Option<
    Seq<(Seq<char>, Seq<char>)>,
> {
    match git {
        Some(g) => Some(pairs_view(g@)),
        None => None,
    }
}

/// Writes the front matter of a note (without `---` markers).
pub fn write_front_matter(
    timestamp: &str,
    environment: &str,
    tags: &str,
    cwd: &str,
    git: Option<&Vec<(String, String)>>,
) -> (r: String)
    ensures
        r@ == front_matter(timestamp@, environment@, tags@, cwd@, git_view(git)),
{
    let mut r = String::from_str("timestamp: ");
    r.append(yaml_quote(timestamp).as_str());
    r.append("\nenvironment: ");
    r.append(yaml_quote(environment).as_str());
    r.append("\n");
    let ghost before_tags = r@;
    let tv = chars_of(tags);
    if tv.len() == 0 {
        r.append("tags: []");
    } else {
        r.append("tags:");
        let items = crate::sync::split_all(&tv, ',');
        let ghost list = crate::sync::piece_views(items@);
        let ghost mid = r@;
        let mut i: usize = 0;
        while i < items.len()
            invariant
                i <= items@.len(),
                list == crate::sync::piece_views(items@),
                r@ == mid + tag_items(list.take(i as int)),
            decreases items@.len() - i,
        {
            assert(list.take(i + 1).drop_last() =~= list.take(i as int));
            assert(list.take(i + 1).last() == items@[i as int]@);
            r.append("\n  - ");
            let t = crate::text::string_from(&items[i]);
            r.append(yaml_quote(t.as_str()).as_str());
            i = i + 1;
        }
        assert(list.take(items@.len() as int) =~= list);
        assert(list == tag_list(tags@));
    }
    r.append("\ncwd: ");
    r.append(yaml_quote(cwd).as_str());
    assert(r@ == base_fields(timestamp@, environment@, tags@, cwd@));
    let ghost base = r@;
    match git {
        Some(g) => {
            r.append("\ngit:");
            let mut i: usize = 0;
            let ghost mid = r@;
            while i < g.len()
                invariant
                    i <= g@.len(),
                    mid == base + "\ngit:"@,
                    r@ == mid + git_items(pairs_view(g@).take(i as int)),
                decreases g@.len() - i,
            {
                let ghost pv = pairs_view(g@);
                assert(pv.take(i + 1).drop_last() =~= pv.take(i as int));
                assert(pv.take(i + 1).last() == (g@[i as int].0@, g@[i as int].1@));
                r.append("\n  ");
                r.append(g[i].0.as_str());
                r.append(": ");
                r.append(yaml_quote(g[i].1.as_str()).as_str());
                i = i + 1;
            }
            assert(pairs_view(g@).take(g@.len() as int) =~= pairs_view(g@));
        },
        None => {
            assert(r@ =~= base + Seq::<char>::empty());
        },
    }
    r
}

/// Writes a note: the front matter between `---` lines, a blank line, and
/// the message with a final line break.
pub fn note_text(front: &str, message: &str) -> (r: String)
    ensures
        r@ == note_seq(front@, message@),
{
    let mut r = String::from_str("---\n");
    r.append(front);
    r.append("\n---\n");
    r.append("\n");
    r.append(message);
    r.append("\n");
    r
}

/// Writes the text of a note whose front matter memo writes itself.
pub fn format_entry(
    timestamp: &str,
    environment: &str,
    tags: &str,
    cwd: &str,
    git: Option<&Vec<(String, String)>>,
    message: &str,
) -> (r: String)
    ensures
        r@ == entry_text(timestamp@, environment@, tags@, cwd@, git_view(git), message@),
{
    let front = write_front_matter(timestamp, environment, tags, cwd, git);
    note_text(front.as_str(), message)
}

/// The Git fields of a note: the root, the branch (`detached` where there is
/// none) and, where the branch has a commit, the head, each from a command's
/// trimmed output.
pub open spec fn git_fields(root: Seq<char>, branch: Seq<char>, head: Option<Seq<char>>) -> Seq<
    (Seq<char>, Seq<char>),
> {
    seq![
        ("root"@, trim_seq(root)),
        ("branch"@, if trim_seq(branch).len() == 0 {
            "detached"@
        } else {
            trim_seq(branch)
        }),
    ] + match head {
        Some(h) => seq![("head"@, trim_seq(h))],
        None => Seq::empty(),
    }
}

/// The Git fields of a note written inside a work tree, from the outputs of
/// `git rev-parse --show-toplevel`, `git branch --show-current` and, where it
/// succeeded (the branch has a commit), `git rev-parse --short HEAD`.
pub fn git_context(root: &str, branch: &str, head: Option<&str>) -> (r: Vec<(String, String)>)
    ensures
        pairs_view(r@) == git_fields(root@, branch@, opt_view(head)),
{
    let root_text = trim(root);
    let branch_text = trim(branch);
    let shown_branch = if branch_text.as_str().is_empty() {
        String::from_str("detached")
    } else {
        branch_text
    };
    let mut r: Vec<(String, String)> = Vec::new();
    r.push((String::from_str("root"), root_text));
    r.push((String::from_str("branch"), shown_branch));
    match head {
        Some(h) => {
            let head_text = trim(h);
            r.push((String::from_str("head"), head_text));
        },
        None => {},
    }
    assert(pairs_view(r@) =~= git_fields(root@, branch@, opt_view(head)));
    r
}

/// The tags and the message of a note, ready to be written.
pub struct EntryDraft {
    /// The tags, each once, in the order first given.
    pub tags: Vec<String>,
    /// The tags joined by commas.
    pub tags_text: String,
    /// The words of the message joined by spaces.
    pub message: String,
}

/// Prepares the tags and the message of a note from the normalized tags as
/// given (repeats allowed) and the words of the message.
pub fn prepare_entry(tags: Vec<String>, words: &Vec<String>) -> (r: EntryDraft)
    ensures
        texts(r.tags@) == first_occurrences(texts(tags@)),
        r.tags_text@ == join_seq(first_occurrences(texts(tags@)), ","@),
        r.message@ == join_seq(texts(words@), " "@),
{
    let unique = unique_tags(tags);
    let tags_text = join_texts(&unique, ",");
    let message = join_texts(words, " ");
    EntryDraft { tags: unique, tags_text, message }
}

/// The environment a metadata script runs with: `MEMO_TAGS`, `MEMO_MESSAGE`,
/// `MEMO_CWD`, and `MEMO_ENVIRONMENT` where an environment is configured.
pub open spec fn script_vars(
    tags: Seq<char>,
    message: Seq<char>,
    cwd: Seq<char>,
    configured: Option<Seq<char>>,
) -> Seq<(Seq<char>, Seq<char>)> {
    seq![("MEMO_TAGS"@, tags), ("MEMO_MESSAGE"@, message), ("MEMO_CWD"@, cwd)] + match configured {
        Some(e) => seq![("MEMO_ENVIRONMENT"@, e)],
        None => Seq::empty(),
    }
}

/// The variables a metadata script is given.
pub fn metadata_environment(
    tags_text: &str,
    message: &str,
    cwd: &str,
    configured: Option<&str>,
) -> (r: Vec<(String, String)>)
    ensures
        pairs_view(r@) == script_vars(tags_text@, message@, cwd@, opt_view(configured)),
{
    let mut r: Vec<(String, String)> = Vec::new();
    r.push((text_string("MEMO_TAGS"), text_string(tags_text)));
    r.push((text_string("MEMO_MESSAGE"), text_string(message)));
    r.push((text_string("MEMO_CWD"), text_string(cwd)));
    match configured {
        Some(e) => {
            r.push((text_string("MEMO_ENVIRONMENT"), text_string(e)));
        },
        None => {},
    }
    assert(pairs_view(r@) =~= script_vars(tags_text@, message@, cwd@, opt_view(configured)));
    r
}

/// Where the front matter of a note comes from.
#[derive(Debug, PartialEq, Eq)]
pub enum MetadataSource {
    /// The script set as `metadata_script`.
    Configured,
    /// The default collector that the installer places.
    DefaultCollector,
    /// The fields memo writes itself.
    BuiltIn,
}

/// Chooses where the front matter comes from: the configured script, else
/// the default collector where it is installed, else memo's own fields.
pub fn metadata_source(configured: bool, default_installed: bool) -> (r: MetadataSource)
    ensures
        r == (if configured {
            MetadataSource::Configured
        } else if default_installed {
            MetadataSource::DefaultCollector
        } else {
            MetadataSource::BuiltIn
        }),
{
    if configured {
        MetadataSource::Configured
    } else if default_installed {
        MetadataSource::DefaultCollector
    } else {
        MetadataSource::BuiltIn
    }
}

/// The directory below the data root that each copy of a note goes to: the
/// inbox first, then each tag other than `inbox`, in order.
pub open spec fn copy_dirs(tags: Seq<Seq<char>>) -> Seq<Seq<char>> {
    seq!["inbox"@] + tags.filter(|t: Seq<char>| t != "inbox"@)
}

/// Where each copy of a note goes, below the data root: the copy's directory
/// and the note's identifier.
pub open spec fn copy_paths(tags: Seq<Seq<char>>, id: Seq<char>) -> Seq<Seq<Seq<char>>> {
    copy_dirs(tags).map_values(|d: Seq<char>| seq![d, id])
}

/// The path components of each element of `v`.
pub open spec fn path_texts(v: Seq<Vec<String>>) -> Seq<Seq<Seq<char>>> {
    v.map_values(|p: Vec<String>| texts(p@))
}

/// The two components of one copy's path.
fn copy_path(dir: &str, id: &str) -> (r: Vec<String>)
    ensures
        texts(r@) == seq![dir@, id@],
{
    let mut r: Vec<String> = Vec::new();
    r.push(String::from_str(dir));
    r.push(String::from_str(id));
    assert(texts(r@) =~= seq![dir@, id@]);
    r
}

/// Where each copy of a note goes, below the data root: first the inbox,
/// then one mirror for each tag other than `inbox`, each named by the note's
/// identifier.
pub fn entry_paths(tags: &Vec<String>, id: &str) -> (r: Vec<Vec<String>>)
    ensures
        path_texts(r@) == copy_paths(texts(tags@), id@),
{
    let ghost ts = texts(tags@);
    let ghost keep = |t: Seq<char>| t != "inbox"@;
    let ghost f = |d: Seq<char>| seq![d, id@];
    let mut r: Vec<Vec<String>> = Vec::new();
    r.push(copy_path("inbox", id));
    let mut i: usize = 0;
    while i < tags.len()
        invariant
            i <= tags@.len(),
            ts == texts(tags@),
            keep == (|t: Seq<char>| t != "inbox"@),
            f == (|d: Seq<char>| seq![d, id@]),
            path_texts(r@) == (seq!["inbox"@] + ts.take(i as int).filter(keep)).map_values(f),
        decreases tags@.len() - i,
    {
        let inbox = chars_of(tags[i].as_str());
        let is_inbox = crate::text::eq_lit(&inbox, "inbox");
        let ghost before = seq!["inbox"@] + ts.take(i as int).filter(keep);
        assert(ts.take(i + 1).drop_last() =~= ts.take(i as int));
        assert(ts.take(i + 1).last() == tags@[i as int]@);
        assert(ts.take(i + 1).filter(keep) == if keep(tags@[i as int]@) {
            ts.take(i as int).filter(keep).push(tags@[i as int]@)
        } else {
            ts.take(i as int).filter(keep)
        }) by {
            reveal(Seq::filter);
        }
        if !is_inbox {
            let p = copy_path(tags[i].as_str(), id);
            let ghost old_r = r@;
            r.push(p);
            let ghost want = before.push(tags@[i as int]@).map_values(f);
            assert(old_r.len() == before.len()) by {
                assert(path_texts(old_r).len() == before.map_values(f).len());
            }
            assert forall|k: int| 0 <= k < r@.len() implies path_texts(r@)[k] == want[k] by {
                if k == old_r.len() {
                    assert(r@[k] == p);
                    assert(want[k] == f(tags@[i as int]@));
                } else {
                    assert(r@[k] == old_r[k]);
                    assert(path_texts(old_r)[k] == before.map_values(f)[k]);
                }
            }
            assert(path_texts(r@) =~= want);
            assert(seq!["inbox"@] + ts.take(i + 1).filter(keep) =~= before.push(tags@[i as int]@));
        } else {
            assert(seq!["inbox"@] + ts.take(i + 1).filter(keep) =~= before);
        }
        i = i + 1;
    }
    assert(ts.take(tags@.len() as int) =~= ts);
    r
}

/// A note ready to be written: its text, its identifier (the lowercase hex
/// SHA-256 of its text), and the path of each copy below the data root.
pub struct EntryPlan {
    pub content: String,
    pub id: String,
    pub paths: Vec<Vec<String>>,
}

/// The front matter of a note: the given one (a metadata script's output),
/// else the fields memo writes itself.
pub open spec fn chosen_front(
    front: Option<Seq<char>>,
    timestamp: Seq<char>,
    environment: Seq<char>,
    tags: Seq<char>,
    cwd: Seq<char>,
    git: Option<Seq<(Seq<char>, Seq<char>)>>,
) -> Seq<char> {
    match front {
        Some(f) => f,
        None => front_matter(timestamp, environment, tags, cwd, git),
    }
}

/// Plans a note: its text (with the given front matter, or memo's own), its
/// identifier, the SHA-256 of that text in lowercase hex, and one copy in the
/// inbox and one in each tag directory other than `inbox`, all under that
/// identifier.
pub fn plan_entry(
    draft: &EntryDraft,
    timestamp: &str,
    environment: &str,
    cwd: &str,
    git: Option<&Vec<(String, String)>>,
    front: Option<&str>,
) -> (r: EntryPlan)
    ensures
        r.content@ == note_seq(
            chosen_front(opt_view(front), timestamp@, environment@, draft.tags_text@, cwd@, git_view(git)),
            draft.message@,
        ),
        r.id@ == content_id(r.content@),
        r.id@.len() == 64,
        path_texts(r.paths@) == copy_paths(texts(draft.tags@), r.id@),
{
    let front_text = match front {
        Some(f) => String::from_str(f),
        None => write_front_matter(timestamp, environment, draft.tags_text.as_str(), cwd, git),
    };
    let content = note_text(front_text.as_str(), draft.message.as_str());
    let id = note_id(content.as_str());
    let paths = entry_paths(&draft.tags, id.as_str());
    EntryPlan { content, id, paths }
}

/// The identifier of a note with text `content`: the lowercase hex SHA-256
/// of its UTF-8 bytes.
pub open spec fn content_id(content: Seq<char>) -> Seq<char> {
    hex_seq(sha256_digest(vstd::utf8::encode_utf8(content)))
}

/// Computes the identifier of a note from its text.
pub fn note_id(content: &str) -> (r: String)
    ensures
        r@ == content_id(content@),
        r@.len() == 64,
{
    let bytes = content.as_bytes();
    let digest = sha256(bytes);
    proof {
        lemma_hex_len(digest@);
    }
    hex_lower(&digest)
}

/// The lowercase hex digit for `d` (below sixteen).
pub open spec fn hex_digit(d: nat) -> char {
    if d < 10 {
        (d + 48) as char
    } else {
        (d + 87) as char
    }
}

/// `d` in lowercase hex, two digits per byte.
pub open spec fn hex_seq(d: Seq<u8>) -> Seq<char>
    decreases d.len(),
{
    if d.len() == 0 {
        Seq::empty()
    } else {
        hex_seq(d.drop_last()) + seq![hex_digit(d.last() as nat / 16), hex_digit(d.last() as nat % 16)]
    }
}

/// The hex text of `d` has two digits per byte.
proof fn lemma_hex_len(d: Seq<u8>)
    ensures
        hex_seq(d).len() == 2 * d.len(),
    decreases d.len(),
{
    if d.len() > 0 {
        lemma_hex_len(d.drop_last());
    }
}

/// The hex digit of a value below sixteen.
fn hex_digit_char(d: u8) -> (c: char)
    requires
        d < 16,
    ensures
        c == hex_digit(d as nat),
{
    if d < 10 {
        (d + 48) as char
    } else {
        (d + 87) as char
    }
}

/// Writes `d` in lowercase hex.
pub fn hex_lower(d: &Vec<u8>) -> (r: String)
    ensures
        r@ == hex_seq(d@),
{
    let mut r = String::new();
    let mut i: usize = 0;
    while i < d.len()
        invariant
            i <= d@.len(),
            r@ == hex_seq(d@.take(i as int)),
        decreases d@.len() - i,
    {
        let b = d[i];
        assert(d@.take(i + 1).drop_last() =~= d@.take(i as int));
        assert(d@.take(i + 1).last() == b);
        push_char(&mut r, hex_digit_char(b / 16));
        push_char(&mut r, hex_digit_char(b % 16));
        assert(r@ =~= hex_seq(d@.take(i + 1)));
        i = i + 1;
    }
    assert(d@.take(d@.len() as int) =~= d@);
    r
}

/// What `sha2::Sha256::digest` returns for `data`: its SHA-256 digest.
pub uninterp spec fn sha256_digest(data: Seq<u8>) -> Seq<u8>;

/// The SHA-256 digest of `data` (`sha2::Sha256::digest`), 32 bytes long.
#[verifier::external_body]
fn sha256(data: &[u8]) -> (r: Vec<u8>)
    ensures
        r@ == sha256_digest(data@),
        r@.len() == 32,
{
    sha2::Sha256::digest(data).to_vec()
}

/// Law: the copies of a note go to different places where the tags have no
/// repeats, as the planned tags have none: the inbox once, and each tag
/// other than `inbox` once.
pub proof fn law_copies_distinct(tags: Seq<Seq<char>>, id: Seq<char>)
    requires
        crate::tags::no_repeats(tags),
    ensures
        crate::tags::no_repeats(copy_paths(tags, id)),
{
    let keep = |t: Seq<char>| t != "inbox"@;
    let kept = tags.filter(keep);
    let dirs = copy_dirs(tags);
    lemma_filter_no_repeats(tags, keep);
    assert(dirs =~= seq!["inbox"@] + kept);
    assert forall|i: int, j: int| 0 <= i < j < dirs.len() implies dirs[i] != dirs[j] by {
        if i == 0 {
            assert(dirs[j] == kept[j - 1]);
            assert(kept.contains(kept[j - 1]));
            tags.lemma_filter_contains_rev(keep, kept[j - 1]);
        } else {
            assert(dirs[i] == kept[i - 1] && dirs[j] == kept[j - 1]);
        }
    }
    let paths = copy_paths(tags, id);
    assert forall|i: int, j: int| 0 <= i < j < paths.len() implies paths[i] != paths[j] by {
        assert(paths[i][0] == dirs[i]);
        assert(paths[j][0] == dirs[j]);
    }
}

/// Keeping some elements of a sequence without repeats leaves no repeats.
proof fn lemma_filter_no_repeats(s: Seq<Seq<char>>, keep: spec_fn(Seq<char>) -> bool)
    requires
        crate::tags::no_repeats(s),
    ensures
        crate::tags::no_repeats(s.filter(keep)),
    decreases s.len(),
{
    reveal(Seq::filter);
    if s.len() > 0 {
        let init = s.drop_last();
        assert(crate::tags::no_repeats(init));
        lemma_filter_no_repeats(init, keep);
        let f = init.filter(keep);
        if keep(s.last()) {
            assert forall|i: int, j: int|
                0 <= i < j < f.push(s.last()).len() implies f.push(s.last())[i] != f.push(
                s.last(),
            )[j] by {
                if j == f.len() {
                    assert(f.contains(f[i]));
                    init.lemma_filter_contains_rev(keep, f[i]);
                    let k = choose|k: int| 0 <= k < init.len() && init[k] == f[i];
                    assert(s[k] == init[k]);
                }
            }
        }
    }
}

/// Law: every copy of a note, in the inbox or in a tag directory, carries the
/// same name, the note's identifier; the first copy is the inbox one.
pub proof fn law_copies_share_name(tags: Seq<Seq<char>>, id: Seq<char>)
    ensures
        copy_paths(tags, id).len() >= 1,
        copy_paths(tags, id)[0] == seq!["inbox"@, id],
        forall|i: int|
            0 <= i < copy_paths(tags, id).len() ==> {
                let p = #[trigger] copy_paths(tags, id)[i];
                &&& p.len() == 2
                &&& p[1] == id
            },
{
}

/// Law: the metadata of a note does not depend on its message: the text is
/// the metadata block, which ends with a line break, then a blank line, the
/// message and a final line break.
pub proof fn law_metadata_apart_from_body(front: Seq<char>, message: Seq<char>)
    ensures
        note_seq(front, message) == metadata_block(front) + "\n"@ + message + "\n"@,
        metadata_block(front).last() == '\n',
{
    reveal_strlit("\n---\n");
    assert(metadata_block(front).last() == "\n---\n"@.last());
}

/// Law: the Git fields of a note form one block inserted at the end of the
/// front matter, before the closing `---`, with each field in the given
/// order; without Git fields no `git` block appears.
pub proof fn law_git_block_inserted(
    timestamp: Seq<char>,
    environment: Seq<char>,
    tags: Seq<char>,
    cwd: Seq<char>,
    g: Seq<(Seq<char>, Seq<char>)>,
)
    ensures
        front_matter(timestamp, environment, tags, cwd, Some(g)) == front_matter(
            timestamp,
            environment,
            tags,
            cwd,
            None,
        ) + git_block(g),
        front_matter(timestamp, environment, tags, cwd, None) == base_fields(
            timestamp,
            environment,
            tags,
            cwd,
        ),
        git_block(g) == "\ngit:"@ + git_items(g),
{
    assert(base_fields(timestamp, environment, tags, cwd) + Seq::<char>::empty() =~= base_fields(
        timestamp,
        environment,
        tags,
        cwd,
    ));
}


/// Whether `needle` stands somewhere in `hay`.
pub open spec fn holds_text(hay: Seq<char>, needle: Seq<char>) -> bool {
    exists|i: int|
        0 <= i && i + needle.len() <= hay.len() && #[trigger] hay.subrange(i, i + needle.len())
            == needle
}

/// A text stands in any text that surrounds it.
proof fn lemma_holds_within(a: Seq<char>, x: Seq<char>, c: Seq<char>, needle: Seq<char>)
    requires
        holds_text(x, needle),
    ensures
        holds_text(a + x + c, needle),
{
    let i = choose|i: int|
        0 <= i && i + needle.len() <= x.len() && #[trigger] x.subrange(i, i + needle.len())
            == needle;
    let h = a + x + c;
    let j = a.len() + i;
    assert(h.subrange(j, j + needle.len()) =~= x.subrange(i, i + needle.len()));
}

/// A text stands in itself.
proof fn lemma_holds_self(x: Seq<char>)
    ensures
        holds_text(x, x),
{
    let i: int = 0;
    assert(x.subrange(i, i + x.len()) =~= x);
}

/// Each quoted tag stands in the tag items.
proof fn lemma_tag_items_hold(tags: Seq<Seq<char>>, k: int)
    requires
        0 <= k < tags.len(),
    ensures
        holds_text(tag_items(tags), quoted(tags[k])),
    decreases tags.len(),
{
    let init = tags.drop_last();
    let e = Seq::<char>::empty();
    if k < tags.len() - 1 {
        lemma_tag_items_hold(init, k);
        assert(init[k] == tags[k]);
        lemma_holds_within(e, tag_items(init), "\n  - "@ + quoted(tags.last()), quoted(tags[k]));
        assert(e + tag_items(init) + ("\n  - "@ + quoted(tags.last())) =~= tag_items(tags));
    } else {
        lemma_holds_self(quoted(tags[k]));
        lemma_holds_within(tag_items(init) + "\n  - "@, quoted(tags[k]), e, quoted(tags[k]));
        assert(tag_items(init) + "\n  - "@ + quoted(tags[k]) + e =~= tag_items(tags));
    }
}

/// Law: the front matter memo writes holds each value quoted: the
/// timestamp, the environment, every tag and the working directory; so does
/// the text of the note.
#[verifier::spinoff_prover]
#[verifier::rlimit(40)]
pub proof fn law_front_matter_holds_values(
    timestamp: Seq<char>,
    environment: Seq<char>,
    tags: Seq<char>,
    cwd: Seq<char>,
    git: Option<Seq<(Seq<char>, Seq<char>)>>,
    message: Seq<char>,
)
    ensures
        holds_text(front_matter(timestamp, environment, tags, cwd, git), quoted(timestamp)),
        holds_text(front_matter(timestamp, environment, tags, cwd, git), quoted(environment)),
        holds_text(front_matter(timestamp, environment, tags, cwd, git), quoted(cwd)),
        forall|k: int|
            0 <= k < tag_list(tags).len() ==> holds_text(
                front_matter(timestamp, environment, tags, cwd, git),
                quoted(#[trigger] tag_list(tags)[k]),
            ),
        forall|v: Seq<char>|
            holds_text(front_matter(timestamp, environment, tags, cwd, git), v) ==> holds_text(
                #[trigger] entry_text(timestamp, environment, tags, cwd, git, message),
                v,
            ),
{
    let e = Seq::<char>::empty();
    let f = front_matter(timestamp, environment, tags, cwd, git);
    let a = "timestamp: "@;
    let qt = quoted(timestamp);
    let b = "\nenvironment: "@;
    let qe = quoted(environment);
    let c = "\n"@;
    let t = tags_field(tag_list(tags));
    let d = "\ncwd: "@;
    let qc = quoted(cwd);
    let g = match git {
        Some(gg) => git_block(gg),
        None => Seq::<char>::empty(),
    };
    assert(f =~= a + qt + b + qe + c + t + d + qc + g);
    lemma_holds_self(qt);
    lemma_holds_within(a, qt, b + qe + c + t + d + qc + g, qt);
    assert(a + qt + (b + qe + c + t + d + qc + g) =~= f);
    lemma_holds_self(qe);
    lemma_holds_within(a + qt + b, qe, c + t + d + qc + g, qe);
    assert(a + qt + b + qe + (c + t + d + qc + g) =~= f);
    lemma_holds_self(qc);
    lemma_holds_within(a + qt + b + qe + c + t + d, qc, g, qc);
    assert forall|k: int| 0 <= k < tag_list(tags).len() implies holds_text(
        f,
        quoted(#[trigger] tag_list(tags)[k]),
    ) by {
        let list = tag_list(tags);
        lemma_tag_items_hold(list, k);
        assert(t == "tags:"@ + tag_items(list));
        lemma_holds_within("tags:"@, tag_items(list), e, quoted(list[k]));
        assert("tags:"@ + tag_items(list) + e =~= t);
        lemma_holds_within(a + qt + b + qe + c, t, d + qc + g, quoted(list[k]));
        assert(a + qt + b + qe + c + t + (d + qc + g) =~= f);
    }
    assert forall|v: Seq<char>| holds_text(f, v) implies holds_text(
        #[trigger] entry_text(timestamp, environment, tags, cwd, git, message),
        v,
    ) by {
        lemma_holds_within("---\n"@, f, "\n---\n"@ + "\n"@ + message + "\n"@, v);
        assert("---\n"@ + f + ("\n---\n"@ + "\n"@ + message + "\n"@) =~= entry_text(
            timestamp,
            environment,
            tags,
            cwd,
            git,
            message,
        ));
    }
}

} // verus!
