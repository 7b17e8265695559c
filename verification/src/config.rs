//! The configuration file: its line format, its keys and their values.
use vstd::prelude::*;
use crate::text::{
    chars_of, eq_lit, find_char, first_index, is_space, lemma_first_index, lemma_trim_end_append,
    lemma_trim_end_spaces, lemma_trim_start_append, lemma_trim_start_spaces,
    lemma_trim_start_suffix, split_on, string_from, sub_vec, trim_end_seq, trim_seq,
    trim_start_seq, trimmed,
};

verus! {

broadcast use vstd::string::group_string_axioms;

/// `value` without one pair of enclosing double or single quotes.
pub open spec fn unquote_seq(s: Seq<char>) -> Seq<char> {
    if s.len() >= 2 && ((s[0] == '"' && s.last() == '"') || (s[0] == '\'' && s.last() == '\'')) {
        s.subrange(1, s.len() - 1)
    } else {
        s
    }
}

/// Removes one pair of enclosing double or single quotes from `value`.
pub fn unquote(value: &str) -> (r: String)
    ensures
        r@ == unquote_seq(value@),
{
    let v = chars_of(value);
    let w = unquote_chars(&v);
    string_from(&w)
}

/// `unquote` on characters.
fn unquote_chars(v: &Vec<char>) -> (r: Vec<char>)
    ensures
        r@ == unquote_seq(v@),
{
    let n = v.len();
    if n >= 2 && ((v[0] == '"' && v[n - 1] == '"') || (v[0] == '\'' && v[n - 1] == '\'')) {
        sub_vec(v, 1, n - 1)
    } else {
        let r = sub_vec(v, 0, n);
        assert(v@.subrange(0, n as int) =~= v@);
        r
    }
}

/// Where a path written in the configuration points.
pub enum PathSetting {
    /// The home directory itself (`~`).
    Home,
    /// A path below the home directory (`~/rest`): the rest.
    UnderHome(String),
    /// A path taken as written.
    Plain(String),
}

/// What a `PathSetting` holds.
pub enum PathSettingView {
    Home,
    UnderHome(Seq<char>),
    Plain(Seq<char>),
}

impl View for PathSetting {
    type V = PathSettingView;

    open spec fn view(&self) -> PathSettingView {
        match self {
            PathSetting::Home => PathSettingView::Home,
            PathSetting::UnderHome(s) => PathSettingView::UnderHome(s@),
            PathSetting::Plain(s) => PathSettingView::Plain(s@),
        }
    }
}

/// Why a configuration file is refused.
#[derive(Debug)]
pub enum ConfigError {
    /// A line (numbered from 1) that has text but no `=`.
    InvalidLine(usize),
    /// A path starts with `~` but no home directory is known.
    HomeNotSet,
    /// An `auto_sync` value (on the line numbered from 1) that is not a yes or a no.
    InvalidAutoSync(usize),
    /// A key that the configuration does not know.
    UnknownKey(String),
    /// No `repo` key.
    MissingRepo,
}

/// What a `ConfigError` holds.
pub enum ConfigErrorView {
    InvalidLine(nat),
    HomeNotSet,
    InvalidAutoSync(nat),
    UnknownKey(Seq<char>),
    MissingRepo,
}

impl View for ConfigError {
    type V = ConfigErrorView;

    open spec fn view(&self) -> ConfigErrorView {
        match self {
            ConfigError::InvalidLine(n) => ConfigErrorView::InvalidLine(*n as nat),
            ConfigError::HomeNotSet => ConfigErrorView::HomeNotSet,
            ConfigError::InvalidAutoSync(n) => ConfigErrorView::InvalidAutoSync(*n as nat),
            ConfigError::UnknownKey(k) => ConfigErrorView::UnknownKey(k@),
            ConfigError::MissingRepo => ConfigErrorView::MissingRepo,
        }
    }
}

/// Where a path written in the configuration points, given whether a home
/// directory is known.
pub open spec fn expand_path_spec(value: Seq<char>, home_set: bool) -> Result<
    PathSettingView,
    ConfigErrorView,
> {
    if value == "~"@ {
        if home_set {
            Ok(PathSettingView::Home)
        } else {
            Err(ConfigErrorView::HomeNotSet)
        }
    } else if value.len() >= 2 && value[0] == '~' && value[1] == '/' {
        if home_set {
            Ok(PathSettingView::UnderHome(value.skip(2)))
        } else {
            Err(ConfigErrorView::HomeNotSet)
        }
    } else {
        Ok(PathSettingView::Plain(value))
    }
}

/// Reads a path of the configuration: `~` is the home directory, `~/rest` a path below
/// it, anything else a path as written; a path under `~` is refused where no
/// home directory is known.
pub fn expand_path(value: &str, home_set: bool) -> (r: Result<PathSetting, ConfigError>)
    ensures
        r matches Ok(p) ==> expand_path_spec(value@, home_set) == Ok::<_, ConfigErrorView>(p@),
        r matches Err(e) ==> expand_path_spec(value@, home_set) == Err::<PathSettingView, _>(e@),
{
    let v = chars_of(value);
    expand_chars(&v, home_set)
}

/// `expand_path` on characters.
fn expand_chars(v: &Vec<char>, home_set: bool) -> (r: Result<PathSetting, ConfigError>)
    ensures
        r matches Ok(p) ==> expand_path_spec(v@, home_set) == Ok::<_, ConfigErrorView>(p@),
        r matches Err(e) ==> expand_path_spec(v@, home_set) == Err::<PathSettingView, _>(e@),
{
    if eq_lit(v, "~") {
        if home_set {
            Ok(PathSetting::Home)
        } else {
            Err(ConfigError::HomeNotSet)
        }
    } else if v.len() >= 2 && v[0] == '~' && v[1] == '/' {
        if home_set {
            let rest = sub_vec(v, 2, v.len());
            assert(rest@ =~= v@.skip(2));
            Ok(PathSetting::UnderHome(string_from(&rest)))
        } else {
            Err(ConfigError::HomeNotSet)
        }
    } else {
        Ok(PathSetting::Plain(string_from(v)))
    }
}


/// The settings read so far from a configuration file.
pub struct Draft {
    pub repo: Option<PathSettingView>,
    pub metadata_script: Option<PathSettingView>,
    pub remote: Option<Seq<char>>,
    pub environment: Option<Seq<char>>,
    pub auto_sync: bool,
}

/// The settings before any line is read: synchronisation on, nothing else set.
pub open spec fn initial_draft() -> Draft {
    Draft { repo: None, metadata_script: None, remote: None, environment: None, auto_sync: true }
}

/// The yes and no words of `auto_sync`.
pub open spec fn switch_word(value: Seq<char>) -> Option<bool> {
    if value == "true"@ || value == "1"@ || value == "yes"@ {
        Some(true)
    } else if value == "false"@ || value == "0"@ || value == "no"@ {
        Some(false)
    } else {
        None
    }
}

/// What a line holds once a `#` comment is cut off and white space trimmed.
pub open spec fn line_content(line: Seq<char>) -> Seq<char> {
    trim_seq(line.take(first_index(line, '#')))
}

/// The key of a `key = value` line.
pub open spec fn line_key(content: Seq<char>) -> Seq<char> {
    trim_seq(content.take(first_index(content, '=')))
}

/// The value of a `key = value` line: trimmed, then unquoted.
pub open spec fn line_value(content: Seq<char>) -> Seq<char> {
    unquote_seq(trim_seq(content.skip(first_index(content, '=') + 1)))
}

/// The settings after reading `line`, numbered `number` from 1.
pub open spec fn apply_line(d: Draft, line: Seq<char>, number: nat, home_set: bool) -> Result<
    Draft,
    ConfigErrorView,
> {
    let content = line_content(line);
    if content.len() == 0 {
        Ok(d)
    } else if first_index(content, '=') >= content.len() {
        Err(ConfigErrorView::InvalidLine(number))
    } else {
        let key = line_key(content);
        let value = line_value(content);
        if key == "repo"@ {
            match expand_path_spec(value, home_set) {
                Ok(p) => Ok(Draft { repo: Some(p), ..d }),
                Err(e) => Err(e),
            }
        } else if key == "metadata_script"@ {
            match expand_path_spec(value, home_set) {
                Ok(p) => Ok(Draft { metadata_script: Some(p), ..d }),
                Err(e) => Err(e),
            }
        } else if key == "remote"@ {
            Ok(Draft { remote: Some(value), ..d })
        } else if key == "environment"@ {
            Ok(Draft { environment: Some(value), ..d })
        } else if key == "auto_sync"@ {
            match switch_word(value) {
                Some(b) => Ok(Draft { auto_sync: b, ..d }),
                None => Err(ConfigErrorView::InvalidAutoSync(number)),
            }
        } else {
            Err(ConfigErrorView::UnknownKey(key))
        }
    }
}

/// The settings after reading `lines` in order; the first refused line ends
/// the reading.
pub open spec fn apply_lines(lines: Seq<Seq<char>>, home_set: bool) -> Result<
    Draft,
    ConfigErrorView,
>
    decreases lines.len(),
{
    if lines.len() == 0 {
        Ok(initial_draft())
    } else {
        match apply_lines(lines.drop_last(), home_set) {
            Ok(d) => apply_line(d, lines.last(), lines.len(), home_set),
            Err(e) => Err(e),
        }
    }
}

/// A refusal while reading some lines stands whatever lines follow.
proof fn lemma_apply_lines_error(a: Seq<Seq<char>>, b: Seq<Seq<char>>, home_set: bool)
    requires
        apply_lines(a, home_set) is Err,
    ensures
        apply_lines(a + b, home_set) == apply_lines(a, home_set),
    decreases b.len(),
{
    if b.len() == 0 {
        assert(a + b =~= a);
    } else {
        lemma_apply_lines_error(a, b.drop_last(), home_set);
        assert((a + b).drop_last() =~= a + b.drop_last());
    }
}

/// Law: a line that starts with `#`, and a line that holds only white space,
/// leave the settings as they are.
pub proof fn law_comment_lines_ignored(d: Draft, line: Seq<char>, number: nat, home_set: bool)
    requires
        (line.len() > 0 && line[0] == '#') || forall|i: int|
            0 <= i < line.len() ==> crate::text::is_space(#[trigger] line[i]),
    ensures
        apply_line(d, line, number, home_set) == Ok::<_, ConfigErrorView>(d),
{
    crate::text::lemma_first_index_bounds(line, '#');
    let before = line.take(first_index(line, '#'));
    if line.len() > 0 && line[0] == '#' {
        assert(before.len() == 0);
    } else {
        lemma_trim_all_space(before);
    }
}

/// Text made only of white space trims to nothing.
proof fn lemma_trim_all_space(s: Seq<char>)
    requires
        forall|i: int| 0 <= i < s.len() ==> crate::text::is_space(#[trigger] s[i]),
    ensures
        trim_seq(s).len() == 0,
    decreases s.len(),
{
    if s.len() > 0 {
        assert(crate::text::is_space(s[0]));
        assert forall|i: int| 0 <= i < s.drop_first().len() implies crate::text::is_space(
            #[trigger] s.drop_first()[i],
        ) by {
            assert(s.drop_first()[i] == s[i + 1]);
        }
        lemma_trim_all_space(s.drop_first());
    }
}

/// The parts of a line `key=w` whose key text `k` and value text `w` hold no
/// `#`, and whose key text holds no `=`: the key read is `k` trimmed, the
/// value read is `w` trimmed and unquoted.
proof fn lemma_line_parts(k: Seq<char>, w: Seq<char>)
    requires
        forall|i: int| 0 <= i < k.len() ==> #[trigger] k[i] != '#' && k[i] != '=',
        forall|i: int| 0 <= i < w.len() ==> #[trigger] w[i] != '#',
    ensures
        line_content(k + seq!['='] + w).len() > 0,
        first_index(line_content(k + seq!['='] + w), '=') < line_content(k + seq!['='] + w).len(),
        line_key(line_content(k + seq!['='] + w)) == trim_seq(k),
        line_value(line_content(k + seq!['='] + w)) == unquote_seq(trim_seq(trim_end_seq(w))),
{
    let eq = seq!['='];
    let line = k + eq + w;
    assert(line =~= k + (eq + w));
    assert forall|i: int| 0 <= i < line.len() implies #[trigger] line[i] != '#' by {
        if i < k.len() {
            assert(line[i] == k[i]);
        } else if i > k.len() {
            assert(line[i] == w[i - k.len() - 1]);
        }
    }
    lemma_first_index(line, '#', line.len() as int);
    assert(line.take(line.len() as int) =~= line);
    lemma_trim_start_append(k, eq + w);
    lemma_trim_start_suffix(k);
    let k1 = trim_start_seq(k);
    assert(k1 + (eq + w) =~= (k1 + eq) + w);
    lemma_trim_end_append(k1 + eq, w);
    let c = line_content(line);
    assert(c =~= k1 + eq + trim_end_seq(w));
    assert forall|i: int| 0 <= i < k1.len() implies #[trigger] c[i] != '=' by {
        assert(c[i] == k1[i]);
        assert(k1[i] == k[k.len() - k1.len() + i]);
    }
    lemma_first_index(c, '=', k1.len() as int);
    assert(c.take(k1.len() as int) =~= k1);
    assert(trim_start_seq(k1) == k1);
    assert(c.skip(k1.len() as int + 1) =~= trim_end_seq(w));
}

/// Law: quoting a value does not change what a line sets. A line
/// `key=<spaces>value<spaces>` and the same line with the value in double or
/// single quotes are read alike, whatever the key, where neither the key nor
/// the value holds a `#`, the key holds no `=`, the value neither starts nor
/// ends with white space and is not itself quoted. In particular an
/// `environment` line sets the environment to the value without its quotes.
pub proof fn law_quotes_do_not_matter(
    d: Draft,
    k: Seq<char>,
    p: Seq<char>,
    v: Seq<char>,
    q: Seq<char>,
    quote: char,
    number: nat,
    home_set: bool,
)
    requires
        forall|i: int| 0 <= i < k.len() ==> #[trigger] k[i] != '#' && k[i] != '=',
        forall|i: int| 0 <= i < p.len() ==> is_space(#[trigger] p[i]),
        forall|i: int| 0 <= i < q.len() ==> is_space(#[trigger] q[i]),
        forall|i: int| 0 <= i < v.len() ==> #[trigger] v[i] != '#',
        v.len() > 0 ==> !is_space(v[0]) && !is_space(v.last()),
        unquote_seq(v) == v,
        quote == '"' || quote == '\'',
    ensures
        apply_line(d, k + seq!['='] + p + v + q, number, home_set) == apply_line(
            d,
            k + seq!['='] + p + seq![quote] + v + seq![quote] + q,
            number,
            home_set,
        ),
        trim_seq(k) == "environment"@ ==> apply_line(
            d,
            k + seq!['='] + p + seq![quote] + v + seq![quote] + q,
            number,
            home_set,
        ) == Ok::<Draft, ConfigErrorView>((Draft { environment: Some(v), ..d })),
{
    let qs = seq![quote];
    let w1 = p + v + q;
    let w2 = p + qs + v + qs + q;
    assert(k + seq!['='] + p + v + q =~= k + seq!['='] + w1);
    assert(k + seq!['='] + p + qs + v + qs + q =~= k + seq!['='] + w2);
    assert forall|i: int| 0 <= i < w1.len() implies #[trigger] w1[i] != '#' by {
        if i < p.len() {
            assert(w1[i] == p[i]);
        } else if i < p.len() + v.len() {
            assert(w1[i] == v[i - p.len()]);
        } else {
            assert(w1[i] == q[i - p.len() - v.len()]);
        }
    }
    assert forall|i: int| 0 <= i < w2.len() implies #[trigger] w2[i] != '#' by {
        if i < p.len() {
            assert(w2[i] == p[i]);
        } else if p.len() < i < p.len() + 1 + v.len() {
            assert(w2[i] == v[i - p.len() - 1]);
        } else if i > p.len() + 1 + v.len() {
            assert(w2[i] == q[i - p.len() - v.len() - 2]);
        }
    }
    lemma_line_parts(k, w1);
    lemma_line_parts(k, w2);
    // The value of the plain line.
    lemma_trim_end_spaces(p + v, q);
    if v.len() > 0 {
        assert((p + v).last() == v.last());
        assert(trim_end_seq(p + v) == p + v);
        lemma_trim_start_spaces(p, v);
        assert(trim_seq(trim_end_seq(w1)) == v);
    } else {
        assert(p + v =~= Seq::<char>::empty() + p);
        lemma_trim_end_spaces(Seq::<char>::empty(), p);
        assert(trim_seq(trim_end_seq(w1)) =~= v);
    }
    // The value of the quoted line.
    let inner = qs + v + qs;
    assert(w2 =~= p + inner + q);
    lemma_trim_end_spaces(p + inner, q);
    assert((p + inner).last() == quote);
    assert(trim_end_seq(p + inner) == p + inner);
    lemma_trim_start_spaces(p, inner);
    assert(inner[0] == quote);
    assert(trim_start_seq(inner) == inner);
    assert(inner.last() == quote);
    assert(trim_end_seq(inner) == inner);
    assert(inner.subrange(1, inner.len() - 1) =~= v);
    assert(unquote_seq(inner) == v);
    if trim_seq(k) == "environment"@ {
        reveal_strlit("repo");
        reveal_strlit("metadata_script");
        reveal_strlit("remote");
        reveal_strlit("environment");
        assert("environment"@.len() != "repo"@.len());
        assert("environment"@.len() != "metadata_script"@.len());
        assert("environment"@.len() != "remote"@.len());
        let c2 = line_content(k + seq!['='] + w2);
        assert(line_key(c2) == "environment"@);
        assert(line_value(c2) == v);
    }
}

/// A configuration file that was read.
pub struct ConfigFile {
    pub repo: PathSetting,
    /// The script whose output becomes the front matter of each note.
    pub metadata_script: Option<PathSetting>,
    pub remote: Option<String>,
    pub environment: Option<String>,
    /// The `auto_sync` setting of the file (true where the file has none).
    pub auto_sync: bool,
}

/// The settings of a configuration file as they are being read.
struct Settings {
    repo: Option<PathSetting>,
    metadata_script: Option<PathSetting>,
    remote: Option<String>,
    environment: Option<String>,
    auto_sync: bool,
}

impl Settings {
    spec fn draft(&self) -> Draft {
        Draft {
            repo: match self.repo {
                Some(p) => Some(p@),
                None => None,
            },
            metadata_script: match self.metadata_script {
                Some(p) => Some(p@),
                None => None,
            },
            remote: match self.remote {
                Some(s) => Some(s@),
                None => None,
            },
            environment: match self.environment {
                Some(s) => Some(s@),
                None => None,
            },
            auto_sync: self.auto_sync,
        }
    }
}

/// Reads an `auto_sync` word.
fn switch_word_exec(v: &Vec<char>) -> (r: Option<bool>)
    ensures
        r == switch_word(v@),
{
    if eq_lit(v, "true") || eq_lit(v, "1") || eq_lit(v, "yes") {
        Some(true)
    } else if eq_lit(v, "false") || eq_lit(v, "0") || eq_lit(v, "no") {
        Some(false)
    } else {
        None
    }
}

/// Reads one line into `st`.
fn read_line(line: &Vec<char>, number: usize, home_set: bool, st: Settings) -> (r: Result<
    Settings,
    ConfigError,
>)
    ensures
        r matches Ok(s) ==> apply_line(st.draft(), line@, number as nat, home_set) == Ok::<
            _,
            ConfigErrorView,
        >(s.draft()),
        r matches Err(e) ==> apply_line(st.draft(), line@, number as nat, home_set) == Err::<
            Draft,
            _,
        >(e@),
{
    let hash = find_char(line, 0, '#');
    assert(line@.skip(0) =~= line@);
    let before = sub_vec(line, 0, hash);
    let content = trimmed(&before);
    assert(content@ == line_content(line@));
    if content.len() == 0 {
        return Ok(st);
    }
    let eq = find_char(&content, 0, '=');
    assert(content@.skip(0) =~= content@);
    if eq >= content.len() {
        return Err(ConfigError::InvalidLine(number));
    }
    let key_part = sub_vec(&content, 0, eq);
    let key = trimmed(&key_part);
    let value_part = sub_vec(&content, eq + 1, content.len());
    assert(value_part@ =~= content@.skip(first_index(content@, '=') + 1));
    assert(key_part@ =~= content@.take(first_index(content@, '=')));
    let value_trimmed = trimmed(&value_part);
    let value = unquote_chars(&value_trimmed);
    assert(key@ == line_key(content@));
    assert(value@ == line_value(content@));
    if eq_lit(&key, "repo") {
        match expand_chars(&value, home_set) {
            Ok(p) => Ok(Settings { repo: Some(p), ..st }),
            Err(e) => Err(e),
        }
    } else if eq_lit(&key, "metadata_script") {
        match expand_chars(&value, home_set) {
            Ok(p) => Ok(Settings { metadata_script: Some(p), ..st }),
            Err(e) => Err(e),
        }
    } else if eq_lit(&key, "remote") {
        Ok(Settings { remote: Some(string_from(&value)), ..st })
    } else if eq_lit(&key, "environment") {
        Ok(Settings { environment: Some(string_from(&value)), ..st })
    } else if eq_lit(&key, "auto_sync") {
        match switch_word_exec(&value) {
            Some(b) => Ok(Settings { auto_sync: b, ..st }),
            None => Err(ConfigError::InvalidAutoSync(number)),
        }
    } else {
        Err(ConfigError::UnknownKey(string_from(&key)))
    }
}

/// The outcome of reading the text of a configuration file.
pub open spec fn config_outcome(text: Seq<char>, home_set: bool) -> Result<
    Draft,
    ConfigErrorView,
> {
    match apply_lines(split_on(text, '\n'), home_set) {
        Ok(d) => if d.repo is Some {
            Ok(d)
        } else {
            Err(ConfigErrorView::MissingRepo)
        },
        Err(e) => Err(e),
    }
}

/// Reads the text of a configuration file: one `key = value` setting per
/// line, `#` starting a comment, blank lines ignored, values trimmed and
/// unquoted. The keys are `repo` (required), `metadata_script`, `remote`,
/// `environment` and `auto_sync` (`true`/`1`/`yes` or `false`/`0`/`no`, on by
/// default); `repo` and `metadata_script` may start with `~`. A later
/// line overrides an earlier one. The first line that is refused ends the
/// reading with its error.
pub fn parse_config(text: &str, home_set: bool) -> (r: Result<ConfigFile, ConfigError>)
    requires
        text@.len() < usize::MAX,
    ensures
        match r {
            Ok(c) => config_outcome(text@, home_set) == Ok::<_, ConfigErrorView>(
                Draft {
                    repo: Some(c.repo@),
                    metadata_script: match c.metadata_script {
                        Some(p) => Some(p@),
                        None => None,
                    },
                    remote: match c.remote {
                        Some(s) => Some(s@),
                        None => None,
                    },
                    environment: match c.environment {
                        Some(s) => Some(s@),
                        None => None,
                    },
                    auto_sync: c.auto_sync,
                },
            ),
            Err(e) => config_outcome(text@, home_set) == Err::<Draft, _>(e@),
        },
{
    let v = chars_of(text);
    let n = v.len();
    let mut st = Settings {
        repo: None,
        metadata_script: None,
        remote: None,
        environment: None,
        auto_sync: true,
    };
    let mut pos: usize = 0;
    let mut number: usize = 1;
    let ghost mut done: Seq<Seq<char>> = Seq::empty();
    assert(v@.skip(0) =~= v@);
    loop
        invariant_except_break
            number == done.len() + 1,
            done.len() <= pos,
            split_on(v@, '\n') == done + split_on(v@.skip(pos as int), '\n'),
        invariant
            n == v@.len(),
            v@ == text@,
            n < usize::MAX,
            pos <= n,
            apply_lines(done, home_set) == Ok::<_, ConfigErrorView>(st.draft()),
        ensures
            split_on(v@, '\n') == done,
        decreases n - pos,
    {
        let e = find_char(&v, pos, '\n');
        let line = sub_vec(&v, pos, e);
        let ghost rest = v@.skip(pos as int);
        proof {
            assert(rest.take(e - pos) =~= line@);
            if e < n {
                assert(rest.skip(e - pos + 1) =~= v@.skip(e + 1));
            }
        }
        let ghost lines_now = done.push(line@);
        assert(lines_now.drop_last() =~= done);
        match read_line(&line, number, home_set, st) {
            Ok(s) => {
                st = s;
            },
            Err(err) => {
                proof {
                    assert(apply_lines(lines_now, home_set) == Err::<Draft, _>(err@));
                    if e < n {
                        assert(split_on(v@, '\n') =~= lines_now + split_on(v@.skip(e + 1), '\n'));
                        lemma_apply_lines_error(lines_now, split_on(v@.skip(e + 1), '\n'), home_set);
                    } else {
                        assert(split_on(v@, '\n') =~= lines_now);
                    }
                }
                return Err(err);
            },
        }
        proof {
            done = lines_now;
        }
        if e == n {
            assert(split_on(v@, '\n') =~= done);
            break;
        }
        assert(split_on(v@, '\n') =~= done + split_on(v@.skip(e + 1), '\n'));
        pos = e + 1;
        number = number + 1;
    }
    let ghost d = st.draft();
    assert(config_outcome(text@, home_set) == if d.repo is Some {
        Ok::<_, ConfigErrorView>(d)
    } else {
        Err(ConfigErrorView::MissingRepo)
    });
    match st.repo {
        Some(repo) => Ok(
            ConfigFile {
                repo,
                metadata_script: st.metadata_script,
                remote: st.remote,
                environment: st.environment,
                auto_sync: st.auto_sync,
            },
        ),
        None => Err(ConfigError::MissingRepo),
    }
}

/// The synchronisation setting in force: a set override is on where it is
/// `1`, `true` or `yes` and off otherwise; without one, the file's setting.
pub open spec fn auto_sync_spec(configured: bool, override_value: Option<Seq<char>>) -> bool {
    match override_value {
        Some(v) => v == "1"@ || v == "true"@ || v == "yes"@,
        None => configured,
    }
}

/// Applies an override of the synchronisation setting (the value of an
/// environment variable, where it is set) to the file's setting.
pub fn effective_auto_sync(configured: bool, override_value: Option<&str>) -> (b: bool)
    ensures
        b == auto_sync_spec(
            configured,
            match override_value {
                Some(s) => Some(s@),
                None => None,
            },
        ),
{
    match override_value {
        Some(s) => {
            let v = chars_of(s);
            eq_lit(&v, "1") || eq_lit(&v, "true") || eq_lit(&v, "yes")
        },
        None => configured,
    }
}


/// Where the configuration file is looked for.
#[derive(Debug, PartialEq, Eq)]
pub enum ConfigLocation {
    /// The file named by `MEMO_CONFIG`.
    Explicit,
    /// `memo/config.toml` below `XDG_CONFIG_HOME`.
    XdgConfigHome,
    /// `.config/memo/config.toml` below the home directory.
    HomeConfig,
    /// `memo/config.toml` below the working directory.
    WorkingDir,
}

/// Chooses where the configuration file is looked for, given which of
/// `MEMO_CONFIG`, `XDG_CONFIG_HOME` and `HOME` are set: the first of them
/// that is, else the working directory.
pub fn config_location(memo_config_set: bool, xdg_set: bool, home_set: bool) -> (r:
    ConfigLocation)
    ensures
        r == (if memo_config_set {
            ConfigLocation::Explicit
        } else if xdg_set {
            ConfigLocation::XdgConfigHome
        } else if home_set {
            ConfigLocation::HomeConfig
        } else {
            ConfigLocation::WorkingDir
        }),
{
    if memo_config_set {
        ConfigLocation::Explicit
    } else if xdg_set {
        ConfigLocation::XdgConfigHome
    } else if home_set {
        ConfigLocation::HomeConfig
    } else {
        ConfigLocation::WorkingDir
    }
}

} // verus!
