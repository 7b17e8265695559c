//! The user's registry of tags: one tag per line in a local file.
use vstd::prelude::*;
use crate::sync::{non_empty_lines, non_empty_lines_of};
use crate::tags::{contains_text, texts};
use crate::text::{eq_lit, first_index, lemma_first_index, lemma_first_index_bounds, split_on};
use crate::sync::{line_pieces, non_empty, strip_cr};
use crate::tags::{is_name_char, is_valid_tag};

verus! {

broadcast use vstd::string::group_string_axioms;

/// The tags a registry lists: its non-empty lines.
pub open spec fn registered(text: Seq<char>) -> Seq<Seq<char>> {
    non_empty_lines(text)
}

/// Whether `t` is a tag with a directory of its own that the registry does
/// not list yet.
pub open spec fn is_fresh(known: Seq<Seq<char>>, t: Seq<char>) -> bool {
    t != "inbox"@ && !known.contains(t)
}

/// The tags of a note that the registry does not list yet, other than
/// `inbox`, in order.
pub open spec fn fresh_tags(tags: Seq<Seq<char>>, text: Seq<char>) -> Seq<Seq<char>> {
    tags.filter(|t: Seq<char>| is_fresh(registered(text), t))
}

/// One line per tag.
pub open spec fn tag_lines(tags: Seq<Seq<char>>) -> Seq<char>
    decreases tags.len(),
{
    if tags.len() == 0 {
        Seq::empty()
    } else {
        tag_lines(tags.drop_last()) + tags.last().push('\n')
    }
}

/// The line break that must come before new lines: one where the text does
/// not end with a line break already.
pub open spec fn line_separator(text: Seq<char>) -> Seq<char> {
    if text.len() > 0 && text.last() != '\n' {
        seq!['\n']
    } else {
        Seq::empty()
    }
}

/// The new text of the registry after a note with `tags`, or `None` where
/// it lists them all already.
pub open spec fn registry_update(text: Seq<char>, tags: Seq<Seq<char>>) -> Option<Seq<char>> {
    let f = fresh_tags(tags, text);
    if f.len() == 0 {
        None
    } else {
        Some(text + line_separator(text) + tag_lines(f))
    }
}

/// Registers the tags of a note in the registry text `registry`: each tag
/// other than `inbox` that no line lists yet is added as a line of its own,
/// in order. Gives the new text, or `None` where nothing is new.
pub fn register_tags(registry: &str, tags: &Vec<String>) -> (r: Option<String>)
    ensures
        match r {
            Some(t) => registry_update(registry@, texts(tags@)) == Some(t@),
            None => registry_update(registry@, texts(tags@)) is None,
        },
{
    let known = non_empty_lines_of(registry);
    let ghost kv = texts(known@);
    let ghost pred = |t: Seq<char>| is_fresh(kv, t);
    let ghost ts = texts(tags@);
    let mut fresh: Vec<String> = Vec::new();
    let mut i: usize = 0;
    while i < tags.len()
        invariant
            i <= tags@.len(),
            kv == texts(known@),
            kv == registered(registry@),
            ts == texts(tags@),
            pred == (|t: Seq<char>| is_fresh(kv, t)),
            texts(fresh@) == ts.take(i as int).filter(pred),
        decreases tags@.len() - i,
    {
        assert(ts.take(i + 1).drop_last() =~= ts.take(i as int));
        assert(ts.take(i + 1).last() == tags@[i as int]@);
        assert(ts.take(i + 1).filter(pred) == if pred(tags@[i as int]@) {
            ts.take(i as int).filter(pred).push(tags@[i as int]@)
        } else {
            ts.take(i as int).filter(pred)
        }) by {
            reveal(Seq::filter);
        }
        let chars = crate::text::chars_of(tags[i].as_str());
        let is_inbox = eq_lit(&chars, "inbox");
        let listed = contains_text(&known, &tags[i]);
        if !is_inbox && !listed {
            let ghost before = fresh@;
            fresh.push(tags[i].clone());
            assert(texts(fresh@) =~= texts(before).push(tags@[i as int]@));
        }
        i = i + 1;
    }
    assert(ts.take(tags@.len() as int) =~= ts);
    assert(texts(fresh@) =~= fresh_tags(ts, registry@));
    if fresh.len() == 0 {
        return None;
    }
    let mut text = String::from_str(registry);
    let v = crate::text::chars_of(registry);
    if v.len() > 0 && v[v.len() - 1] != '\n' {
        crate::text::push_char(&mut text, '\n');
        assert(text@ =~= registry@ + seq!['\n']);
    } else {
        assert(text@ =~= registry@ + Seq::<char>::empty());
    }
    let ghost head = text@;
    let ghost fv = texts(fresh@);
    let mut k: usize = 0;
    while k < fresh.len()
        invariant
            k <= fresh@.len(),
            fv == texts(fresh@),
            text@ == head + tag_lines(fv.take(k as int)),
        decreases fresh@.len() - k,
    {
        assert(fv.take(k + 1).drop_last() =~= fv.take(k as int));
        assert(fv.take(k + 1).last() == fresh@[k as int]@);
        text.append(fresh[k].as_str());
        crate::text::push_char(&mut text, '\n');
        assert(text@ =~= head + tag_lines(fv.take(k + 1)));
        k = k + 1;
    }
    assert(fv.take(fresh@.len() as int) =~= fv);
    Some(text)
}


/// `split_on` always gives at least one piece.
proof fn lemma_split_nonempty(s: Seq<char>, sep: char)
    ensures
        split_on(s, sep).len() >= 1,
    decreases s.len(),
{
    lemma_first_index_bounds(s, sep);
    let i = first_index(s, sep);
    if 0 <= i < s.len() {
        lemma_split_nonempty(s.skip(i + 1), sep);
    }
}

/// Adding a separator at the end closes the last piece and opens an empty
/// one.
proof fn lemma_split_push(s: Seq<char>, sep: char)
    ensures
        split_on(s.push(sep), sep) == split_on(s, sep).push(Seq::<char>::empty()),
    decreases s.len(),
{
    lemma_first_index_bounds(s, sep);
    let i = first_index(s, sep);
    let t = s.push(sep);
    if i < s.len() {
        assert forall|k: int| 0 <= k < i implies t[k] != sep by {
            assert(t[k] == s[k]);
        }
        lemma_first_index(t, sep, i);
        assert(t.take(i) =~= s.take(i));
        assert(t.skip(i + 1) =~= s.skip(i + 1).push(sep));
        lemma_split_push(s.skip(i + 1), sep);
        assert(split_on(t, sep) =~= split_on(s, sep).push(Seq::<char>::empty()));
    } else {
        assert forall|k: int| 0 <= k < s.len() implies t[k] != sep by {
            assert(t[k] == s[k]);
        }
        lemma_first_index(t, sep, s.len() as int);
        assert(t.take(s.len() as int) =~= s);
        assert(t.skip(s.len() as int + 1) =~= Seq::<char>::empty());
        lemma_first_index(Seq::<char>::empty(), sep, 0);
        assert(split_on(Seq::<char>::empty(), sep) =~= seq![Seq::<char>::empty()]);
        assert(split_on(t, sep) =~= split_on(s, sep).push(Seq::<char>::empty()));
    }
}

/// Text that is empty or ends with the separator splits, followed by more
/// text, into its finished pieces and the pieces of what follows.
proof fn lemma_split_append(a: Seq<char>, b: Seq<char>, sep: char)
    requires
        a.len() == 0 || a.last() == sep,
    ensures
        split_on(a + b, sep) == split_on(a, sep).drop_last() + split_on(b, sep),
        split_on(a, sep).last() == Seq::<char>::empty(),
    decreases a.len(),
{
    lemma_split_nonempty(a, sep);
    if a.len() == 0 {
        assert(a + b =~= b);
        assert(a =~= Seq::<char>::empty());
        lemma_first_index(a, sep, 0);
        assert(split_on(a, sep) =~= seq![Seq::<char>::empty()]);
        assert(split_on(a, sep).drop_last() + split_on(b, sep) =~= split_on(b, sep));
    } else {
        lemma_first_index_bounds(a, sep);
        let i = first_index(a, sep);
        if i >= a.len() {
            assert(a[a.len() - 1] == sep);
        }
        let ab = a + b;
        assert forall|k: int| 0 <= k < i implies ab[k] != sep by {
            assert(ab[k] == a[k]);
        }
        lemma_first_index(ab, sep, i);
        assert(ab.take(i) =~= a.take(i));
        let rest = a.skip(i + 1);
        assert(ab.skip(i + 1) =~= rest + b);
        if rest.len() > 0 {
            assert(rest.last() == a.last());
        }
        lemma_split_append(rest, b, sep);
        lemma_split_nonempty(rest, sep);
        assert(split_on(a, sep).drop_last() =~= seq![a.take(i)] + split_on(rest, sep).drop_last());
        assert(split_on(ab, sep) =~= split_on(a, sep).drop_last() + split_on(b, sep));
    }
}

/// A tag written as lines: each line a tag, then one empty piece.
proof fn lemma_split_tag_lines(f: Seq<Seq<char>>)
    requires
        forall|i: int| 0 <= i < f.len() ==> !(#[trigger] f[i]).contains('\n'),
    ensures
        split_on(tag_lines(f), '\n') == f.push(Seq::<char>::empty()),
        tag_lines(f).len() == 0 || tag_lines(f).last() == '\n',
    decreases f.len(),
{
    if f.len() == 0 {
        lemma_first_index(Seq::<char>::empty(), '\n', 0);
        assert(split_on(Seq::<char>::empty(), '\n') =~= seq![Seq::<char>::empty()]);
        assert(f.push(Seq::<char>::empty()) =~= seq![Seq::<char>::empty()]);
    } else {
        let init = f.drop_last();
        let t = f.last();
        assert forall|i: int| 0 <= i < init.len() implies !(#[trigger] init[i]).contains('\n') by {
            assert(init[i] == f[i]);
        }
        lemma_split_tag_lines(init);
        assert(!f[f.len() - 1].contains('\n'));
        assert forall|k: int| 0 <= k < t.len() implies t[k] != '\n' by {
            if t[k] == '\n' {
                assert(t.contains('\n'));
            }
        }
        lemma_first_index(t, '\n', t.len() as int);
        assert(t.take(t.len() as int) =~= t);
        assert(split_on(t, '\n') =~= seq![t]);
        lemma_split_push(t, '\n');
        lemma_split_append(tag_lines(init), t.push('\n'), '\n');
        assert(split_on(tag_lines(f), '\n') =~= f.push(Seq::<char>::empty()));
    }
}

/// A tag has no line break and does not end with a carriage return.
proof fn lemma_tag_is_one_line(t: Seq<char>)
    requires
        is_valid_tag(t),
    ensures
        !t.contains('\n'),
        strip_cr(t) == t,
        non_empty(t),
{
    if t.contains('\n') {
        let k = choose|k: int| 0 <= k < t.len() && t[k] == '\n';
        assert(is_name_char(t[k]));
    }
    assert(is_name_char(t[t.len() - 1]));
}

/// Law: registering the tags of a note again, in the registry that
/// registering them gave, adds nothing: every tag is then listed.
pub proof fn law_register_twice_adds_nothing(text: Seq<char>, tags: Seq<Seq<char>>)
    requires
        forall|i: int| 0 <= i < tags.len() ==> is_valid_tag(#[trigger] tags[i]),
        registry_update(text, tags) is Some,
    ensures
        registry_update(registry_update(text, tags)->0, tags) is None,
{
    let f = fresh_tags(tags, text);
    let a = text + line_separator(text);
    let new = a + tag_lines(f);
    assert(registry_update(text, tags)->0 == new);
    let fp = |t: Seq<char>| is_fresh(registered(text), t);
    assert forall|i: int| 0 <= i < f.len() implies !(#[trigger] f[i]).contains('\n') by {
        tags.lemma_filter_pred(fp, i);
        assert(f.contains(f[i]));
        tags.lemma_filter_contains_rev(fp, f[i]);
        let j = choose|j: int| 0 <= j < tags.len() && tags[j] == f[i];
        lemma_tag_is_one_line(tags[j]);
    }
    lemma_split_tag_lines(f);
    let pa = split_on(a, '\n');
    let pt = split_on(text, '\n');
    lemma_split_nonempty(text, '\n');
    if line_separator(text).len() == 0 {
        assert(a =~= text);
    } else {
        assert(a =~= text.push('\n'));
        lemma_split_push(text, '\n');
    }
    lemma_split_append(a, tag_lines(f), '\n');
    let p = pa.drop_last() + f.push(Seq::<char>::empty());
    assert(split_on(new, '\n') == p);
    let lp = line_pieces(new);
    let ne = |l: Seq<char>| non_empty(l);
    assert(lp =~= (pa.drop_last() + f).map_values(|l: Seq<char>| strip_cr(l)).push(Seq::<char>::empty()));
    assert forall|i: int| 0 <= i < tags.len() implies !is_fresh(registered(new), #[trigger] tags[i]) by {
        let t = tags[i];
        lemma_tag_is_one_line(t);
        if t != "inbox"@ {
            if registered(text).contains(t) {
                let lt = line_pieces(text);
                lt.lemma_filter_contains_rev(ne, t);
                let j = choose|j: int| 0 <= j < lt.len() && lt[j] == t;
                if j < pt.len() - 1 {
                    assert(lt[j] == strip_cr(pt[j]));
                    assert(pa.drop_last()[j] == pt[j]);
                    assert(lp[j] == strip_cr(pt[j]));
                    lp.lemma_filter_contains(ne, j);
                } else {
                    assert(lt[j] == pt.last());
                    if line_separator(text).len() == 0 {
                        assert(pa.last() == Seq::<char>::empty());
                        assert(false);
                    } else {
                        assert(pa.drop_last()[j] == pt[j]);
                        assert(lp[j] == strip_cr(t));
                        lp.lemma_filter_contains(ne, j);
                    }
                }
            } else {
                tags.lemma_filter_contains(fp, i);
                let k = choose|k: int| 0 <= k < f.len() && f[k] == t;
                let at = pa.drop_last().len() + k;
                assert(lp[at] == strip_cr(t));
                lp.lemma_filter_contains(ne, at);
            }
        }
    }
    let fp2 = |t: Seq<char>| is_fresh(registered(new), t);
    tags.lemma_all_neg_filter_empty(fp2);
}

} // verus!
