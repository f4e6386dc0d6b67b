//! String utilities over character sequences: conversion to and from
//! character vectors, and the byte-wise (code point) order that `str`
//! comparisons use.
use vstd::prelude::*;
use vstd::relations::{sorted_by, total_ordering};
use crate::text::push_char;

verus! {

/// The characters of a string slice, in order.
pub fn chars_of(s: &str) -> (v: Vec<char>)
    ensures
        v@ == s@,
{
    let mut v: Vec<char> = Vec::new();
    for c in it: s.chars()
        invariant
            v@ =~= s@.take(it.index() as int),
            it.seq() == s@,
    {
        v.push(c);
    }
    assert(s@.take(s@.len() as int) =~= s@);
    v
}

/// A string holding the given characters.
pub fn string_from_chars(cs: &Vec<char>) -> (s: String)
    ensures
        s@ == cs@,
{
    let mut s = String::new();
    let mut i: usize = 0;
    while i < cs.len()
        invariant
            i <= cs.len(),
            s@ =~= cs@.take(i as int),
        decreases cs.len() - i,
    {
        push_char(&mut s, cs[i]);
        i = i + 1;
        assert(s@ =~= cs@.take(i as int));
    }
    assert(cs@.take(cs.len() as int) =~= cs@);
    s
}

/// Appends characters `cs[from..to]` to `s`.
pub fn push_chars(s: &mut String, cs: &Vec<char>, from: usize, to: usize)
    requires
        from <= to <= cs.len(),
    ensures
        final(s)@ == old(s)@ + cs@.subrange(from as int, to as int),
{
    let mut i = from;
    while i < to
        invariant
            from <= i <= to <= cs.len(),
            s@ =~= old(s)@ + cs@.subrange(from as int, i as int),
        decreases to - i,
    {
        push_char(s, cs[i]);
        i = i + 1;
        assert(s@ =~= old(s)@ + cs@.subrange(from as int, i as int));
    }
}

/// Strict lexicographic order on character sequences, comparing code points;
/// it is the order of `<` on `str`.
pub open spec fn chars_lt(a: Seq<char>, b: Seq<char>) -> bool
    decreases a.len(),
{
    if a.len() == 0 {
        b.len() > 0
    } else if b.len() == 0 {
        false
    } else if (a[0] as int) < (b[0] as int) {
        true
    } else if a[0] == b[0] {
        chars_lt(a.drop_first(), b.drop_first())
    } else {
        false
    }
}

/// Non-strict version of [`chars_lt`].
pub open spec fn chars_le(a: Seq<char>, b: Seq<char>) -> bool {
    a == b || chars_lt(a, b)
}

/// Descending order: `a` comes no later than `b` when `b <= a`.
pub open spec fn chars_ge(a: Seq<char>, b: Seq<char>) -> bool {
    chars_le(b, a)
}

proof fn lemma_chars_lt_irreflexive(a: Seq<char>)
    ensures
        !chars_lt(a, a),
    decreases a.len(),
{
    if a.len() > 0 {
        lemma_chars_lt_irreflexive(a.drop_first());
    }
}

proof fn lemma_chars_lt_asymmetric(a: Seq<char>, b: Seq<char>)
    ensures
        !(chars_lt(a, b) && chars_lt(b, a)),
    decreases a.len(),
{
    if a.len() > 0 && b.len() > 0 && a[0] == b[0] {
        lemma_chars_lt_asymmetric(a.drop_first(), b.drop_first());
    }
}

proof fn lemma_chars_lt_transitive(a: Seq<char>, b: Seq<char>, c: Seq<char>)
    requires
        chars_lt(a, b),
        chars_lt(b, c),
    ensures
        chars_lt(a, c),
    decreases a.len(),
{
    if a.len() > 0 && a[0] == b[0] && b[0] == c[0] {
        lemma_chars_lt_transitive(a.drop_first(), b.drop_first(), c.drop_first());
    }
}

proof fn lemma_chars_lt_total(a: Seq<char>, b: Seq<char>)
    ensures
        a == b || chars_lt(a, b) || chars_lt(b, a),
    decreases a.len(),
{
    if a.len() > 0 && b.len() > 0 && a[0] == b[0] {
        lemma_chars_lt_total(a.drop_first(), b.drop_first());
        if a.drop_first() == b.drop_first() {
            assert(a =~= seq![a[0]] + a.drop_first());
            assert(b =~= seq![b[0]] + b.drop_first());
        }
    } else if a.len() > 0 && b.len() > 0 {
        assert((a[0] as int) != (b[0] as int));
    } else if a.len() == 0 && b.len() == 0 {
        assert(a =~= b);
    }
}

/// Law: the descending string order is a total order, so a sequence sorted
/// by it is determined by its elements.
pub proof fn lemma_chars_ge_total_ordering()
    ensures
        total_ordering(|a: Seq<char>, b: Seq<char>| chars_ge(a, b)),
{
    let leq = |a: Seq<char>, b: Seq<char>| chars_ge(a, b);
    assert forall|x: Seq<char>| #[trigger] leq(x, x) by {}
    assert forall|x: Seq<char>, y: Seq<char>| #[trigger] leq(x, y) && #[trigger] leq(y, x) implies x == y by {
        lemma_chars_lt_asymmetric(x, y);
    }
    assert forall|x: Seq<char>, y: Seq<char>, z: Seq<char>|
        #[trigger] leq(x, y) && #[trigger] leq(y, z) implies leq(x, z) by {
        if x != y && y != z {
            lemma_chars_lt_transitive(z, y, x);
        }
    }
    assert forall|x: Seq<char>, y: Seq<char>| #[trigger] leq(x, y) || #[trigger] leq(y, x) by {
        lemma_chars_lt_total(x, y);
    }
    assert(vstd::relations::reflexive(leq));
    assert(vstd::relations::antisymmetric(leq));
    assert(vstd::relations::transitive(leq));
    assert(vstd::relations::strongly_connected(leq));
}

/// Whether `a` sorts strictly before `b`.
pub fn chars_less(a: &Vec<char>, b: &Vec<char>) -> (r: bool)
    ensures
        r == chars_lt(a@, b@),
{
    let mut i: usize = 0;
    assert(a@.skip(0) =~= a@);
    assert(b@.skip(0) =~= b@);
    assert(a@.take(0) =~= b@.take(0));
    while i < a.len() && i < b.len()
        invariant
            i <= a.len(),
            i <= b.len(),
            a@.take(i as int) == b@.take(i as int),
            chars_lt(a@, b@) == chars_lt(a@.skip(i as int), b@.skip(i as int)),
        decreases a.len() - i,
    {
        let ca = a[i];
        let cb = b[i];
        if ca < cb {
            return true;
        }
        if ca != cb {
            return false;
        }
        assert(a@.skip(i as int).drop_first() =~= a@.skip(i + 1));
        assert(b@.skip(i as int).drop_first() =~= b@.skip(i + 1));
        assert(a@.take(i + 1) =~= a@.take(i as int).push(ca));
        assert(b@.take(i + 1) =~= b@.take(i as int).push(cb));
        i = i + 1;
    }
    i < b.len()
}

/// Sorts strings in descending code-point order (newest-first for
/// timestamp-shaped names).
pub fn sort_descending(items: Vec<String>) -> (out: Vec<String>)
    ensures
        sorted_by(out@.map_values(|s: String| s@), |a: Seq<char>, b: Seq<char>| chars_ge(a, b)),
        out@.map_values(|s: String| s@).to_multiset() == items@.map_values(|s: String| s@).to_multiset(),
{
    let ghost leq = |a: Seq<char>, b: Seq<char>| chars_ge(a, b);
    let mut out: Vec<String> = Vec::new();
    let mut keys: Vec<Vec<char>> = Vec::new();
    let mut i: usize = 0;
    proof {
        lemma_chars_ge_total_ordering();
        assert(items@.take(0).map_values(|s: String| s@) =~= Seq::<Seq<char>>::empty());
        assert(out@.map_values(|s: String| s@) =~= Seq::<Seq<char>>::empty());
    }
    while i < items.len()
        invariant
            i <= items.len(),
            keys.len() == out.len(),
            forall|k: int| 0 <= k < out.len() ==> #[trigger] keys@[k]@ == out@[k]@,
            sorted_by(out@.map_values(|s: String| s@), leq),
            out@.map_values(|s: String| s@).to_multiset()
                == items@.take(i as int).map_values(|s: String| s@).to_multiset(),
            total_ordering(leq),
            leq == (|a: Seq<char>, b: Seq<char>| chars_ge(a, b)),
        decreases items.len() - i,
    {
        let item = items[i].clone();
        let key = chars_of(item.as_str());
        let ghost old_view = out@.map_values(|s: String| s@);
        // first position whose element sorts strictly below `item`
        let mut pos: usize = 0;
        while pos < out.len()
            invariant
                pos <= out.len(),
                keys.len() == out.len(),
                forall|k: int| 0 <= k < out.len() ==> #[trigger] keys@[k]@ == out@[k]@,
                forall|k: int| 0 <= k < pos ==> chars_ge(#[trigger] old_view[k], key@),
                old_view == out@.map_values(|s: String| s@),
            ensures
                pos <= out.len(),
                forall|k: int| 0 <= k < pos ==> chars_ge(#[trigger] old_view[k], key@),
                pos < out.len() ==> chars_lt(old_view[pos as int], key@),
            decreases out.len() - pos,
        {
            if chars_less(&keys[pos], &key) {
                break;
            }
            proof {
                lemma_chars_lt_total(keys@[pos as int]@, key@);
            }
            pos = pos + 1;
        }
        proof {
            assert forall|k: int| pos <= k < old_view.len() implies chars_ge(key@, #[trigger] old_view[k]) by {
                if pos != k {
                    assert(chars_lt(old_view[pos as int], key@));
                    assert(leq(old_view[pos as int], old_view[k]));
                    if old_view[pos as int] != old_view[k] {
                        assert(chars_lt(old_view[k], old_view[pos as int]));
                        lemma_chars_lt_transitive(old_view[k], old_view[pos as int], key@);
                    }
                }
            }
        }
        out.insert(pos, item);
        keys.insert(pos, key);
        proof {
            let nv = out@.map_values(|s: String| s@);
            assert(nv =~= old_view.insert(pos as int, items@[i as int]@));
            vstd::seq_lib::to_multiset_insert(old_view, pos as int, items@[i as int]@);
            assert(items@.take(i + 1).map_values(|s: String| s@)
                =~= items@.take(i as int).map_values(|s: String| s@).push(items@[i as int]@));
            vstd::seq_lib::to_multiset_build(items@.take(i as int).map_values(|s: String| s@), items@[i as int]@);
            assert forall|a: int, b: int| 0 <= a < b < nv.len() implies leq(#[trigger] nv[a], #[trigger] nv[b]) by {
                if a < pos && b < pos {
                    assert(nv[a] == old_view[a] && nv[b] == old_view[b]);
                } else if a < pos && b == pos {
                    assert(nv[a] == old_view[a] && nv[b] == key@);
                    assert(chars_ge(old_view[a], key@));
                } else if a < pos && b > pos {
                    assert(nv[b] == old_view[b - 1]);
                    assert(leq(old_view[a], old_view[b - 1]) || a == b - 1);
                } else if a == pos {
                    assert(nv[a] == key@);
                    assert(nv[b] == old_view[b - 1]);
                    assert(chars_ge(key@, old_view[b - 1]));
                } else {
                    assert(nv[a] == old_view[a - 1] && nv[b] == old_view[b - 1]);
                }
            }
            assert forall|k: int| 0 <= k < out.len() implies #[trigger] keys@[k]@ == out@[k]@ by {
                assert(keys@[k]@ == nv[k]);
            }
        }
        i = i + 1;
    }
    assert(items@.take(items.len() as int) =~= items@);
    out
}

} // verus!
