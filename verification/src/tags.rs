//! Tags: the rule a tag must follow and the order-keeping removal of repeats.
use vstd::prelude::*;
use crate::text::{chars_of, is_space, push_char, trim_bounds, trim_end_seq, trim_seq, trim_start_seq};

verus! {

broadcast use vstd::string::group_string_axioms;

/// ASCII letters and digits.
pub open spec fn is_ascii_alnum(c: char) -> bool {
    ||| ('a' <= c && c <= 'z')
    ||| ('A' <= c && c <= 'Z')
    ||| ('0' <= c && c <= '9')
}

/// The characters a tag (and an environment name) may hold.
pub open spec fn is_name_char(c: char) -> bool {
    is_ascii_alnum(c) || c == '.' || c == '_' || c == '-'
}

/// Whether `c` may stand in a tag.
pub fn is_name_char_exec(c: char) -> (b: bool)
    ensures
        b == is_name_char(c),
{
    ('a' <= c && c <= 'z') || ('A' <= c && c <= 'Z') || ('0' <= c && c <= '9') || c == '.' || c
        == '_' || c == '-'
}

/// `c` with an ASCII upper-case letter turned into lower case
/// (`char::to_ascii_lowercase`).
pub open spec fn ascii_lower(c: char) -> char {
    if 'A' <= c && c <= 'Z' {
        ((c as u32) + 32) as char
    } else {
        c
    }
}

/// `s` with its ASCII upper-case letters in lower case (`str::to_ascii_lowercase`).
pub open spec fn lower_seq(s: Seq<char>) -> Seq<char> {
    s.map_values(|c: char| ascii_lower(c))
}

/// Lower-case form of one character.
pub fn ascii_lower_char(c: char) -> (r: char)
    ensures
        r == ascii_lower(c),
{
    if 'A' <= c && c <= 'Z' {
        let b = c as u8;
        (b + 32) as char
    } else {
        c
    }
}


/// The form a raw tag takes: trimmed, then in ASCII lower case.
pub open spec fn tag_form(raw: Seq<char>) -> Seq<char> {
    lower_seq(trim_seq(raw))
}

/// A tag that may name a directory: non-empty, neither `.` nor `..`, and made
/// of ASCII letters, digits, `.`, `_` and `-` only.
pub open spec fn is_valid_tag(t: Seq<char>) -> bool {
    &&& t.len() > 0
    &&& t != seq!['.']
    &&& t != seq!['.', '.']
    &&& forall|i: int| 0 <= i < t.len() ==> is_name_char(#[trigger] t[i])
}

/// Normalizes a tag given on the command line: trims it and lowers its
/// ASCII letters; refuses it, with the message `invalid tag: <raw>`, where
/// what remains is not a valid tag.
pub fn normalize_tag(raw: &str) -> (r: Result<String, String>)
    ensures
        match r {
            Ok(t) => is_valid_tag(tag_form(raw@)) && t@ == tag_form(raw@),
            Err(e) => !is_valid_tag(tag_form(raw@)) && e@ == "invalid tag: "@ + raw@,
        },
{
    let v = chars_of(raw);
    let (lo2, hi2) = trim_bounds(&v, true, true);
    proof {
        assert(v@.subrange(lo2 as int, hi2 as int) == trim_seq(raw@));
    }
    let ghost trimmed = v@.subrange(lo2 as int, hi2 as int);
    let mut value = String::new();
    let mut all_ok = true;
    let mut k = lo2;
    while k < hi2
        invariant
            lo2 <= k <= hi2 <= v@.len(),
            trimmed == v@.subrange(lo2 as int, hi2 as int),
            value@ == lower_seq(v@.subrange(lo2 as int, k as int)),
            all_ok == forall|i: int| lo2 <= i < k ==> is_name_char(#[trigger] ascii_lower(v@[i])),
        decreases hi2 - k,
    {
        let c = ascii_lower_char(v[k]);
        if !is_name_char_exec(c) {
            all_ok = false;
        }
        push_char(&mut value, c);
        assert(lower_seq(v@.subrange(lo2 as int, k + 1)) =~= lower_seq(
            v@.subrange(lo2 as int, k as int),
        ).push(c));
        k = k + 1;
    }
    let ghost form = tag_form(raw@);
    assert(value@ == form);
    assert(all_ok == forall|i: int| 0 <= i < form.len() ==> is_name_char(#[trigger] form[i])) by {
        if all_ok {
            assert forall|i: int| 0 <= i < form.len() implies is_name_char(#[trigger] form[i]) by {
                assert(form[i] == ascii_lower(v@[lo2 + i]));
            }
        } else {
            let w = choose|i: int| lo2 <= i < hi2 && !is_name_char(#[trigger] ascii_lower(v@[i]));
            assert(form[w - lo2] == ascii_lower(v@[w]));
        }
    }
    let n = hi2 - lo2;
    let is_dot = n == 1 && ascii_lower_char(v[lo2]) == '.';
    let is_dot_dot = n == 2 && ascii_lower_char(v[lo2]) == '.' && ascii_lower_char(v[lo2 + 1])
        == '.';
    proof {
        if n == 1 {
            assert(form[0] == ascii_lower(v@[lo2 as int]));
            assert(is_dot <==> form =~= seq!['.']);
        }
        if n == 2 {
            assert(form[0] == ascii_lower(v@[lo2 as int]));
            assert(form[1] == ascii_lower(v@[lo2 + 1]));
            assert(is_dot_dot <==> form =~= seq!['.', '.']);
        }
        if n != 1 {
            assert(form.len() != seq!['.'].len());
        }
        if n != 2 {
            assert(form.len() != seq!['.', '.'].len());
        }
    }
    if n == 0 || is_dot || is_dot_dot || !all_ok {
        let mut e = String::from_str("invalid tag: ");
        e.append(raw);
        return Err(e);
    }
    Ok(value)
}


/// The elements of `s` in order, each kept only where it first occurs.
pub open spec fn first_occurrences<A>(s: Seq<A>) -> Seq<A>
    decreases s.len(),
{
    if s.len() == 0 {
        Seq::empty()
    } else if s.drop_last().contains(s.last()) {
        first_occurrences(s.drop_last())
    } else {
        first_occurrences(s.drop_last()).push(s.last())
    }
}

/// The text of each string in `v`.
pub open spec fn texts(v: Seq<String>) -> Seq<Seq<char>> {
    v.map_values(|t: String| t@)
}

/// Whether the text of `t` is the text of an element of `v`.
pub(crate) fn contains_text(v: &Vec<String>, t: &String) -> (b: bool)
    ensures
        b == texts(v@).contains(t@),
{
    let mut k: usize = 0;
    while k < v.len()
        invariant
            k <= v@.len(),
            forall|i: int| 0 <= i < k ==> v@[i]@ != t@,
        decreases v@.len() - k,
    {
        if v[k] == *t {
            assert(texts(v@)[k as int] == t@);
            return true;
        }
        k = k + 1;
    }
    assert forall|i: int| 0 <= i < texts(v@).len() implies texts(v@)[i] != t@ by {
        assert(texts(v@)[i] == v@[i]@);
    }
    false
}

/// Removes repeated tags, keeping the first occurrence of each, in order.
pub fn unique_tags(tags: Vec<String>) -> (r: Vec<String>)
    ensures
        texts(r@) == first_occurrences(texts(tags@)),
{
    proof {
        lemma_first_occurrences_members(texts(tags@));
    }
    let mut unique: Vec<String> = Vec::new();
    let mut k: usize = 0;
    while k < tags.len()
        invariant
            k <= tags@.len(),
            texts(unique@) == first_occurrences(texts(tags@).take(k as int)),
        decreases tags@.len() - k,
    {
        let ghost before = texts(tags@).take(k as int);
        let ghost after = texts(tags@).take(k + 1);
        assert(after.drop_last() =~= before);
        assert(after.last() == tags@[k as int]@);
        proof {
            lemma_first_occurrences_members(before);
        }
        let tag = tags[k].clone();
        if !contains_text(&unique, &tag) {
            unique.push(tag);
            assert(texts(unique@) =~= first_occurrences(before).push(tag@));
        }
        k = k + 1;
    }
    assert(texts(tags@).take(tags@.len() as int) =~= texts(tags@));
    unique
}

/// `first_occurrences(s)` holds exactly the elements of `s`.
pub proof fn lemma_first_occurrences_members<A>(s: Seq<A>)
    ensures
        forall|x: A| first_occurrences(s).contains(x) <==> s.contains(x),
    decreases s.len(),
{
    if s.len() > 0 {
        lemma_first_occurrences_members(s.drop_last());
        assert forall|x: A| first_occurrences(s).contains(x) <==> s.contains(x) by {
            if s.contains(x) {
                let i = choose|i: int| 0 <= i < s.len() && s[i] == x;
                if i < s.len() - 1 {
                    assert(s.drop_last()[i] == x);
                }
            }
            if s.drop_last().contains(x) {
                let i = choose|i: int| 0 <= i < s.drop_last().len() && s.drop_last()[i] == x;
                assert(s[i] == x);
            }
            if first_occurrences(s).contains(x) && !s.drop_last().contains(s.last()) {
                let fs = first_occurrences(s.drop_last());
                let i = choose|i: int| 0 <= i < fs.push(s.last()).len() && fs.push(s.last())[i] == x;
                if i < fs.len() {
                    assert(fs[i] == x);
                } else {
                    assert(s[s.len() - 1] == x);
                }
            }
            if s.contains(x) && !s.drop_last().contains(s.last()) {
                let fs = first_occurrences(s.drop_last());
                if x == s.last() {
                    assert(fs.push(s.last())[fs.len() as int] == x);
                } else {
                    let i = choose|i: int| 0 <= i < s.len() && s[i] == x;
                    assert(s.drop_last()[i] == x);
                    let j = choose|j: int| 0 <= j < fs.len() && fs[j] == x;
                    assert(fs.push(s.last())[j] == x);
                }
            }
        }
    }
}

/// No element occurs twice in `s`.
pub open spec fn no_repeats<A>(s: Seq<A>) -> bool {
    forall|i: int, j: int| 0 <= i < j < s.len() ==> s[i] != s[j]
}

/// Law: after removing repeated tags no tag occurs twice, and the same tags
/// remain.
pub proof fn law_unique_tags_distinct<A>(s: Seq<A>)
    ensures
        no_repeats(first_occurrences(s)),
        forall|x: A| first_occurrences(s).contains(x) <==> s.contains(x),
    decreases s.len(),
{
    lemma_first_occurrences_members(s);
    if s.len() > 0 {
        law_unique_tags_distinct(s.drop_last());
        lemma_first_occurrences_members(s.drop_last());
        let fs = first_occurrences(s.drop_last());
        if !s.drop_last().contains(s.last()) {
            assert forall|i: int, j: int|
                0 <= i < j < fs.push(s.last()).len() implies fs.push(s.last())[i] != fs.push(
                s.last(),
            )[j] by {
                if j == fs.len() {
                    assert(fs.contains(fs[i]));
                }
            }
        }
    }
}

/// Law: a sequence without repeats is left as it is.
pub proof fn law_unique_tags_keeps_distinct<A>(s: Seq<A>)
    requires
        no_repeats(s),
    ensures
        first_occurrences(s) == s,
    decreases s.len(),
{
    if s.len() > 0 {
        assert(no_repeats(s.drop_last()));
        law_unique_tags_keeps_distinct(s.drop_last());
        if s.drop_last().contains(s.last()) {
            let i = choose|i: int| 0 <= i < s.drop_last().len() && s.drop_last()[i] == s.last();
            assert(s[i] == s[s.len() - 1]);
        }
        assert(s.drop_last().push(s.last()) =~= s);
    }
}

/// Law: removing repeats twice gives what removing them once gives.
pub proof fn law_unique_tags_idempotent<A>(s: Seq<A>)
    ensures
        first_occurrences(first_occurrences(s)) == first_occurrences(s),
{
    law_unique_tags_distinct(s);
    law_unique_tags_keeps_distinct(first_occurrences(s));
}


/// Text without white space at either end is its own trimmed form.
pub proof fn lemma_trim_unchanged(s: Seq<char>)
    requires
        s.len() > 0 ==> !is_space(s[0]) && !is_space(s.last()),
    ensures
        trim_seq(s) == s,
{
}

/// Law: a normalized tag normalizes to itself.
pub proof fn law_normalize_tag_idempotent(raw: Seq<char>)
    requires
        is_valid_tag(tag_form(raw)),
    ensures
        is_valid_tag(tag_form(tag_form(raw))),
        tag_form(tag_form(raw)) == tag_form(raw),
{
    let t = tag_form(raw);
    if t.len() > 0 {
        assert(is_name_char(t[0]));
        assert(is_name_char(t[t.len() - 1]));
    }
    lemma_trim_unchanged(t);
    assert forall|i: int| 0 <= i < t.len() implies #[trigger] ascii_lower(t[i]) == t[i] by {
        let c = trim_seq(raw)[i];
        assert(t[i] == ascii_lower(c));
    }
    assert(lower_seq(t) =~= t);
}

/// Law: a valid tag is a single plain directory name: it is not empty,
/// holds no `/`, and is not `.` or `..`.
pub proof fn law_tag_is_plain_name(t: Seq<char>)
    requires
        is_valid_tag(t),
    ensures
        !t.contains('/'),
        t != seq!['.'] && t != seq!['.', '.'],
        t.len() > 0,
{
    if t.contains('/') {
        let i = choose|i: int| 0 <= i < t.len() && t[i] == '/';
        assert(is_name_char(t[i]));
    }
}


/// An ASCII upper-case letter, by its code point.
pub open spec fn is_ascii_upper(c: char) -> bool {
    65 <= c as u32 <= 90
}

/// Two characters that are equal, or the same ASCII letter in upper and in
/// lower case.
pub open spec fn same_but_case(a: char, b: char) -> bool {
    ||| a == b
    ||| is_ascii_upper(a) && b as u32 == a as u32 + 32
    ||| is_ascii_upper(b) && a as u32 == b as u32 + 32
}

/// Characters that differ only in case are both white space or neither, and
/// have the same lower-case form.
proof fn lemma_same_but_case(a: char, b: char)
    requires
        same_but_case(a, b),
    ensures
        is_space(a) <==> is_space(b),
        ascii_lower(a) == ascii_lower(b),
{
    if is_ascii_upper(a) && b as u32 == a as u32 + 32 {
        assert(ascii_lower(a) as u32 == b as u32);
    }
    if is_ascii_upper(b) && a as u32 == b as u32 + 32 {
        assert(ascii_lower(b) as u32 == a as u32);
    }
}

/// Trimming two texts that differ only in case cuts them at the same places.
proof fn lemma_trim_start_case(a: Seq<char>, b: Seq<char>)
    requires
        a.len() == b.len(),
        forall|i: int| 0 <= i < a.len() ==> same_but_case(#[trigger] a[i], b[i]),
    ensures
        trim_start_seq(a).len() == trim_start_seq(b).len(),
        forall|i: int|
            0 <= i < trim_start_seq(a).len() ==> same_but_case(
                #[trigger] trim_start_seq(a)[i],
                trim_start_seq(b)[i],
            ),
    decreases a.len(),
{
    if a.len() > 0 {
        lemma_same_but_case(a[0], b[0]);
        if is_space(a[0]) {
            assert forall|i: int| 0 <= i < a.drop_first().len() implies same_but_case(
                #[trigger] a.drop_first()[i],
                b.drop_first()[i],
            ) by {
                assert(same_but_case(a[i + 1], b[i + 1]));
            }
            lemma_trim_start_case(a.drop_first(), b.drop_first());
        }
    }
}

/// Trimming two texts that differ only in case cuts them at the same places.
proof fn lemma_trim_end_case(a: Seq<char>, b: Seq<char>)
    requires
        a.len() == b.len(),
        forall|i: int| 0 <= i < a.len() ==> same_but_case(#[trigger] a[i], b[i]),
    ensures
        trim_end_seq(a).len() == trim_end_seq(b).len(),
        forall|i: int|
            0 <= i < trim_end_seq(a).len() ==> same_but_case(
                #[trigger] trim_end_seq(a)[i],
                trim_end_seq(b)[i],
            ),
    decreases a.len(),
{
    if a.len() > 0 {
        lemma_same_but_case(a[a.len() - 1], b[b.len() - 1]);
        if is_space(a.last()) {
            assert forall|i: int| 0 <= i < a.drop_last().len() implies same_but_case(
                #[trigger] a.drop_last()[i],
                b.drop_last()[i],
            ) by {
                assert(same_but_case(a[i], b[i]));
            }
            lemma_trim_end_case(a.drop_last(), b.drop_last());
        }
    }
}

/// Law: tags are not case-sensitive: two raw tags that differ only in the
/// case of ASCII letters normalize to the same tag.
pub proof fn law_tag_case_insensitive(a: Seq<char>, b: Seq<char>)
    requires
        a.len() == b.len(),
        forall|i: int| 0 <= i < a.len() ==> same_but_case(#[trigger] a[i], b[i]),
    ensures
        tag_form(a) == tag_form(b),
{
    lemma_trim_start_case(a, b);
    lemma_trim_end_case(trim_start_seq(a), trim_start_seq(b));
    let ta = trim_seq(a);
    let tb = trim_seq(b);
    assert forall|i: int| 0 <= i < ta.len() implies #[trigger] lower_seq(ta)[i] == lower_seq(tb)[i] by {
        lemma_same_but_case(ta[i], tb[i]);
    }
    assert(lower_seq(ta) =~= lower_seq(tb));
}

/// Law: a normalized tag holds no ASCII upper-case letter, and has one
/// character for each character of the trimmed raw tag: each upper-case
/// letter becomes the lower-case letter 32 code points above it, and every
/// other character stays.
pub proof fn law_tag_is_lower_case(raw: Seq<char>)
    ensures
        tag_form(raw).len() == trim_seq(raw).len(),
        forall|i: int| 0 <= i < tag_form(raw).len() ==> !is_ascii_upper(#[trigger] tag_form(raw)[i]),
        forall|i: int|
            0 <= i < tag_form(raw).len() ==> {
                let c = trim_seq(raw)[i];
                let t = #[trigger] tag_form(raw)[i];
                &&& is_ascii_upper(c) ==> t as u32 == c as u32 + 32
                &&& !is_ascii_upper(c) ==> t == c
            },
{
    let tr = trim_seq(raw);
    assert forall|i: int| 0 <= i < tag_form(raw).len() implies !is_ascii_upper(
        #[trigger] tag_form(raw)[i],
    ) by {
        assert(tag_form(raw)[i] == ascii_lower(tr[i]));
    }
    assert forall|i: int| 0 <= i < tag_form(raw).len() implies {
        let c = trim_seq(raw)[i];
        let t = #[trigger] tag_form(raw)[i];
        &&& is_ascii_upper(c) ==> t as u32 == c as u32 + 32
        &&& !is_ascii_upper(c) ==> t == c
    } by {
        assert(tag_form(raw)[i] == ascii_lower(tr[i]));
    }
}

/// An ASCII letter or digit, `.`, `_` or `-`, by its code point.
pub open spec fn is_plain_name_char(c: char) -> bool {
    let n = c as u32;
    ||| 48 <= n <= 57
    ||| 65 <= n <= 90
    ||| 97 <= n <= 122
    ||| n == 46
    ||| n == 95
    ||| n == 45
}

/// Every such character may stand in a tag.
pub proof fn lemma_plain_is_name_char(c: char)
    requires
        is_plain_name_char(c),
    ensures
        is_name_char(c),
{
}

/// Law: every tag made of ASCII letters, digits, `.`, `_` and `-` (after
/// trimming), other than `.` and `..`, is accepted.
pub proof fn law_plain_tags_accepted(raw: Seq<char>)
    requires
        trim_seq(raw).len() > 0,
        forall|i: int| 0 <= i < trim_seq(raw).len() ==> is_plain_name_char(#[trigger] trim_seq(raw)[i]),
        trim_seq(raw) != seq!['.'],
        trim_seq(raw) != seq!['.', '.'],
    ensures
        is_valid_tag(tag_form(raw)),
{
    let tr = trim_seq(raw);
    let t = tag_form(raw);
    assert forall|i: int| 0 <= i < t.len() implies is_name_char(#[trigger] t[i]) by {
        assert(t[i] == ascii_lower(tr[i]));
        assert(is_plain_name_char(tr[i]));
    }
    if t == seq!['.'] {
        assert(t[0] == ascii_lower(tr[0]));
        assert(tr =~= seq!['.']);
    }
    if t == seq!['.', '.'] {
        assert(t[0] == ascii_lower(tr[0]));
        assert(t[1] == ascii_lower(tr[1]));
        assert(tr =~= seq!['.', '.']);
    }
}

} // verus!
