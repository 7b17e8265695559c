//! Character-level text helpers with exact specifications.
use vstd::prelude::*;

verus! {

broadcast use vstd::string::group_string_axioms;

/// Appends `c` to `s` (`String::push`).
#[verifier::external_body]
pub(crate) fn push_char(s: &mut String, c: char)
    ensures
        final(s)@ == old(s)@.push(c),
{
    s.push(c);
}

/// The characters of `s`, in order.
pub fn chars_of(s: &str) -> (v: Vec<char>)
    ensures
        v@ == s@,
{
    let mut v: Vec<char> = Vec::new();
    for c in it: s.chars()
        invariant
            v@ == it.seq().take(it.index()),
            it.seq() == s@,
    {
        v.push(c);
    }
    v
}


/// The Unicode `White_Space` characters, which `char::is_whitespace` and
/// `str::trim` treat as white space.
pub open spec fn is_space(c: char) -> bool {
    let n = c as u32;
    ||| 0x09 <= n <= 0x0d
    ||| n == 0x20
    ||| n == 0x85
    ||| n == 0xa0
    ||| n == 0x1680
    ||| 0x2000 <= n <= 0x200a
    ||| n == 0x2028
    ||| n == 0x2029
    ||| n == 0x202f
    ||| n == 0x205f
    ||| n == 0x3000
}

/// Whether `c` is white space.
pub fn is_space_char(c: char) -> (b: bool)
    ensures
        b == is_space(c),
{
    let n = c as u32;
    (0x09 <= n && n <= 0x0d) || n == 0x20 || n == 0x85 || n == 0xa0 || n == 0x1680 || (0x2000
        <= n && n <= 0x200a) || n == 0x2028 || n == 0x2029 || n == 0x202f || n == 0x205f || n
        == 0x3000
}

/// `s` without its leading white space.
pub open spec fn trim_start_seq(s: Seq<char>) -> Seq<char>
    decreases s.len(),
{
    if s.len() > 0 && is_space(s[0]) {
        trim_start_seq(s.drop_first())
    } else {
        s
    }
}

/// `s` without its trailing white space.
pub open spec fn trim_end_seq(s: Seq<char>) -> Seq<char>
    decreases s.len(),
{
    if s.len() > 0 && is_space(s.last()) {
        trim_end_seq(s.drop_last())
    } else {
        s
    }
}

/// `s` without leading and trailing white space, as `str::trim` returns it.
pub open spec fn trim_seq(s: Seq<char>) -> Seq<char> {
    trim_end_seq(trim_start_seq(s))
}

/// Leading white space does not change where the trimmed start begins.
pub proof fn lemma_trim_start_spaces(p: Seq<char>, x: Seq<char>)
    requires
        forall|i: int| 0 <= i < p.len() ==> is_space(#[trigger] p[i]),
    ensures
        trim_start_seq(p + x) == trim_start_seq(x),
    decreases p.len(),
{
    if p.len() > 0 {
        assert((p + x)[0] == p[0]);
        assert((p + x).drop_first() =~= p.drop_first() + x);
        lemma_trim_start_spaces(p.drop_first(), x);
    }
}

/// Trailing white space does not change where the trimmed end stops.
pub proof fn lemma_trim_end_spaces(x: Seq<char>, q: Seq<char>)
    requires
        forall|i: int| 0 <= i < q.len() ==> is_space(#[trigger] q[i]),
    ensures
        trim_end_seq(x + q) == trim_end_seq(x),
    decreases q.len(),
{
    if q.len() > 0 {
        assert((x + q).last() == q.last());
        assert((x + q).drop_last() =~= x + q.drop_last());
        lemma_trim_end_spaces(x, q.drop_last());
    }
}

/// Trimming the start of `x + y`, where `y` starts with a character that is
/// not white space, trims `x` alone.
pub proof fn lemma_trim_start_append(x: Seq<char>, y: Seq<char>)
    requires
        y.len() > 0,
        !is_space(y[0]),
    ensures
        trim_start_seq(x + y) == trim_start_seq(x) + y,
    decreases x.len(),
{
    if x.len() > 0 {
        assert((x + y)[0] == x[0]);
        assert((x + y).drop_first() =~= x.drop_first() + y);
        lemma_trim_start_append(x.drop_first(), y);
    } else {
        assert(x + y =~= y);
        assert(trim_start_seq(x) + y =~= y);
    }
}

/// Trimming the end of `x + y`, where `x` ends with a character that is not
/// white space, trims `y` alone.
pub proof fn lemma_trim_end_append(x: Seq<char>, y: Seq<char>)
    requires
        x.len() > 0,
        !is_space(x.last()),
    ensures
        trim_end_seq(x + y) == x + trim_end_seq(y),
    decreases y.len(),
{
    if y.len() > 0 {
        assert((x + y).last() == y.last());
        assert((x + y).drop_last() =~= x + y.drop_last());
        lemma_trim_end_append(x, y.drop_last());
    } else {
        assert(x + y =~= x);
        assert(x + trim_end_seq(y) =~= x);
    }
}

/// What the start trimming leaves is a suffix of `s` that does not start with
/// white space.
pub proof fn lemma_trim_start_suffix(s: Seq<char>)
    ensures
        trim_start_seq(s).len() <= s.len(),
        trim_start_seq(s) == s.skip(s.len() - trim_start_seq(s).len()),
        trim_start_seq(s).len() > 0 ==> !is_space(trim_start_seq(s)[0]),
    decreases s.len(),
{
    if s.len() > 0 && is_space(s[0]) {
        lemma_trim_start_suffix(s.drop_first());
        assert(s.drop_first().skip(s.drop_first().len() - trim_start_seq(s).len()) =~= s.skip(
            s.len() - trim_start_seq(s).len(),
        ));
    } else {
        assert(s.skip(0) =~= s);
    }
}

/// The string made of `v[lo..hi]`.
pub fn string_of(v: &Vec<char>, lo: usize, hi: usize) -> (r: String)
    requires
        lo <= hi <= v@.len(),
    ensures
        r@ == v@.subrange(lo as int, hi as int),
{
    let mut r = String::new();
    let mut i = lo;
    while i < hi
        invariant
            lo <= i <= hi <= v@.len(),
            r@ == v@.subrange(lo as int, i as int),
        decreases hi - i,
    {
        push_char(&mut r, v[i]);
        assert(v@.subrange(lo as int, i + 1) =~= v@.subrange(lo as int, i as int).push(v@[i as int]));
        i = i + 1;
    }
    r
}

/// The bounds `(i, j)` such that `v[i..j]` is `v` trimmed at its start (when
/// `start`) and at its end (when `end`).
pub(crate) fn trim_bounds(v: &Vec<char>, start: bool, end: bool) -> (r: (usize, usize))
    ensures
        r.0 <= r.1 <= v@.len(),
        start && end ==> v@.subrange(r.0 as int, r.1 as int) == trim_seq(v@),
        start && !end ==> v@.subrange(r.0 as int, r.1 as int) == trim_start_seq(v@),
        !start && end ==> v@.subrange(r.0 as int, r.1 as int) == trim_end_seq(v@),
{
    let n = v.len();
    let mut i: usize = 0;
    assert(v@.subrange(0, n as int) =~= v@);
    if start {
        while i < n && is_space_char(v[i])
            invariant
                i <= n == v@.len(),
                trim_start_seq(v@) == trim_start_seq(v@.subrange(i as int, n as int)),
            decreases n - i,
        {
            assert(v@.subrange(i as int, n as int).drop_first() =~= v@.subrange(i + 1, n as int));
            i = i + 1;
        }
    }
    let mut j: usize = n;
    let ghost front = v@.subrange(i as int, n as int);
    if end {
        while j > i && is_space_char(v[j - 1])
            invariant
                i <= j <= n == v@.len(),
                front == v@.subrange(i as int, n as int),
                trim_end_seq(front) == trim_end_seq(v@.subrange(i as int, j as int)),
            decreases j - i,
        {
            assert(v@.subrange(i as int, j as int).drop_last() =~= v@.subrange(i as int, j - 1));
            j = j - 1;
        }
    }
    (i, j)
}

/// `s` without leading and trailing white space (`str::trim`).
pub fn trim(s: &str) -> (r: String)
    ensures
        r@ == trim_seq(s@),
{
    let v = chars_of(s);
    let (i, j) = trim_bounds(&v, true, true);
    string_of(&v, i, j)
}

/// `s` without trailing white space (`str::trim_end`).
pub fn trim_end(s: &str) -> (r: String)
    ensures
        r@ == trim_end_seq(s@),
{
    let v = chars_of(s);
    let (i, j) = trim_bounds(&v, false, true);
    string_of(&v, i, j)
}


/// The index of the first `c` in `s`, or `s.len()` where there is none.
pub open spec fn first_index(s: Seq<char>, c: char) -> int
    decreases s.len(),
{
    if s.len() == 0 {
        0
    } else if s[0] == c {
        0
    } else {
        1 + first_index(s.drop_first(), c)
    }
}

/// `first_index` is the index of the first `c`: none stands before it.
pub proof fn lemma_first_index(s: Seq<char>, c: char, j: int)
    requires
        0 <= j <= s.len(),
        forall|k: int| 0 <= k < j ==> s[k] != c,
        j == s.len() || s[j] == c,
    ensures
        first_index(s, c) == j,
    decreases s.len(),
{
    if s.len() > 0 && s[0] != c {
        lemma_first_index(s.drop_first(), c, j - 1);
    }
}

/// The pieces of `s` between the occurrences of `sep` (`str::split`): one more
/// piece than there are separators, empty pieces included.
pub open spec fn split_on(s: Seq<char>, sep: char) -> Seq<Seq<char>>
    decreases s.len(),
{
    let i = first_index(s, sep);
    if 0 <= i < s.len() {
        seq![s.take(i)] + split_on(s.skip(i + 1), sep)
    } else {
        seq![s]
    }
}

/// `first_index` lies within `0..=s.len()`, and no `c` stands before it.
pub proof fn lemma_first_index_bounds(s: Seq<char>, c: char)
    ensures
        0 <= first_index(s, c) <= s.len(),
        forall|k: int| 0 <= k < first_index(s, c) ==> s[k] != c,
        first_index(s, c) < s.len() ==> s[first_index(s, c)] == c,
    decreases s.len(),
{
    if s.len() > 0 && s[0] != c {
        lemma_first_index_bounds(s.drop_first(), c);
        assert forall|k: int| 0 <= k < first_index(s, c) implies s[k] != c by {
            if k > 0 {
                assert(s[k] == s.drop_first()[k - 1]);
            }
        }
    }
}

/// The index of the first `c` in `v` at or after `from`, or `v.len()`.
pub fn find_char(v: &Vec<char>, from: usize, c: char) -> (j: usize)
    requires
        from <= v@.len(),
    ensures
        from <= j <= v@.len(),
        j - from == first_index(v@.skip(from as int), c),
        forall|k: int| from <= k < j ==> v@[k] != c,
        j < v@.len() ==> v@[j as int] == c,
{
    let mut j = from;
    while j < v.len() && v[j] != c
        invariant
            from <= j <= v@.len(),
            forall|k: int| from <= k < j ==> v@[k] != c,
        decreases v@.len() - j,
    {
        j = j + 1;
    }
    proof {
        lemma_first_index(v@.skip(from as int), c, j - from);
    }
    j
}

/// A copy of `v[lo..hi]`.
pub fn sub_vec(v: &Vec<char>, lo: usize, hi: usize) -> (r: Vec<char>)
    requires
        lo <= hi <= v@.len(),
    ensures
        r@ == v@.subrange(lo as int, hi as int),
{
    let mut r: Vec<char> = Vec::new();
    let mut i = lo;
    while i < hi
        invariant
            lo <= i <= hi <= v@.len(),
            r@ == v@.subrange(lo as int, i as int),
        decreases hi - i,
    {
        r.push(v[i]);
        assert(v@.subrange(lo as int, i + 1) =~= v@.subrange(lo as int, i as int).push(v@[i as int]));
        i = i + 1;
    }
    r
}

/// `v` trimmed at both ends.
pub fn trimmed(v: &Vec<char>) -> (r: Vec<char>)
    ensures
        r@ == trim_seq(v@),
{
    let (i, j) = trim_bounds(v, true, true);
    sub_vec(v, i, j)
}

/// Whether `v` holds exactly the characters of `lit`.
pub fn eq_lit(v: &Vec<char>, lit: &str) -> (b: bool)
    ensures
        b == (v@ == lit@),
{
    let w = chars_of(lit);
    if v.len() != w.len() {
        return false;
    }
    let mut k: usize = 0;
    while k < v.len()
        invariant
            k <= v@.len() == w@.len(),
            w@ == lit@,
            forall|i: int| 0 <= i < k ==> v@[i] == w@[i],
        decreases v@.len() - k,
    {
        if v[k] != w[k] {
            return false;
        }
        k = k + 1;
    }
    assert(v@ =~= w@);
    true
}

/// The string holding the characters of `v`.
pub fn string_from(v: &Vec<char>) -> (r: String)
    ensures
        r@ == v@,
{
    let r = string_of(v, 0, v.len());
    assert(v@.subrange(0, v@.len() as int) =~= v@);
    r
}


/// The decimal digit for `d` (below ten).
pub open spec fn digit_char(d: nat) -> char {
    (d + 48) as char
}

/// The decimal numeral of `n`, without leading zeros.
pub open spec fn decimal_seq(n: nat) -> Seq<char>
    decreases n,
{
    if n < 10 {
        seq![digit_char(n)]
    } else {
        decimal_seq(n / 10).push(digit_char(n % 10))
    }
}

/// Writes `n` in decimal.
pub fn decimal(n: u128) -> (r: String)
    ensures
        r@ == decimal_seq(n as nat),
    decreases n,
{
    let d = (n % 10) as u8;
    let c = (d + 48) as char;
    if n < 10 {
        let mut r = String::new();
        push_char(&mut r, c);
        assert(r@ =~= seq![digit_char(n as nat)]);
        r
    } else {
        let mut r = decimal(n / 10);
        push_char(&mut r, c);
        r
    }
}

} // verus!
