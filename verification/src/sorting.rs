//! Ordering of strings by their characters, and a sort of string lists by it.
use vstd::prelude::*;
use crate::text::chars_of;

verus! {

broadcast use vstd::seq_lib::group_to_multiset_ensures;

/// `a` comes strictly before `b` in lexicographic order of characters
/// (the order of `String`, since UTF-8 keeps the order of code points).
pub open spec fn seq_lt(a: Seq<char>, b: Seq<char>) -> bool
    decreases a.len(),
{
    if a.len() == 0 {
        b.len() > 0
    } else if b.len() == 0 {
        false
    } else if a[0] != b[0] {
        (a[0] as u32) < (b[0] as u32)
    } else {
        seq_lt(a.drop_first(), b.drop_first())
    }
}

/// `a` comes before `b` or is `b`.
pub open spec fn seq_le(a: Seq<char>, b: Seq<char>) -> bool {
    seq_lt(a, b) || a == b
}

/// `s` is in non-decreasing order.
pub open spec fn is_sorted(s: Seq<Seq<char>>) -> bool {
    forall|i: int, j: int| 0 <= i < j < s.len() ==> seq_le(s[i], s[j])
}

/// The contents of a list of strings.
pub open spec fn views(v: Seq<String>) -> Seq<Seq<char>> {
    v.map_values(|s: String| s@)
}

pub proof fn lemma_lt_irreflexive(a: Seq<char>)
    ensures
        !seq_lt(a, a),
    decreases a.len(),
{
    if a.len() > 0 {
        lemma_lt_irreflexive(a.drop_first());
    }
}

pub proof fn lemma_lt_total(a: Seq<char>, b: Seq<char>)
    ensures
        seq_lt(a, b) || seq_lt(b, a) || a == b,
    decreases a.len(),
{
    if a.len() > 0 && b.len() > 0 && a[0] != b[0] {
        let x = a[0] as u32;
        let y = b[0] as u32;
        vstd::utf8::char_u32_cast(a[0], x);
        vstd::utf8::char_u32_cast(b[0], y);
        assert(x != y);
    }
    if a.len() > 0 && b.len() > 0 && a[0] == b[0] {
        lemma_lt_total(a.drop_first(), b.drop_first());
        if a.drop_first() == b.drop_first() {
            assert(a =~= seq![a[0]] + a.drop_first());
            assert(b =~= seq![b[0]] + b.drop_first());
        }
    } else if a.len() == 0 && b.len() == 0 {
        assert(a =~= b);
    }
}

pub proof fn lemma_lt_transitive(a: Seq<char>, b: Seq<char>, c: Seq<char>)
    requires
        seq_lt(a, b),
        seq_lt(b, c),
    ensures
        seq_lt(a, c),
    decreases a.len(),
{
    if a.len() > 0 && b.len() > 0 && c.len() > 0 {
        if a[0] == b[0] && b[0] == c[0] {
            lemma_lt_transitive(a.drop_first(), b.drop_first(), c.drop_first());
        }
    }
}

pub proof fn lemma_lt_asymmetric(a: Seq<char>, b: Seq<char>)
    requires
        seq_lt(a, b),
    ensures
        !seq_lt(b, a),
{
    if seq_lt(b, a) {
        lemma_lt_transitive(a, b, a);
        lemma_lt_irreflexive(a);
    }
}

/// Decides `seq_lt` on two strings.
pub fn str_lt(a: &str, b: &str) -> (r: bool)
    ensures
        r == seq_lt(a@, b@),
{
    let x = chars_of(a);
    let y = chars_of(b);
    let mut i: usize = 0;
    proof {
        assert(a@.skip(0) =~= a@);
        assert(b@.skip(0) =~= b@);
    }
    while i < x.len() && i < y.len() && x[i] == y[i]
        invariant
            i <= x@.len(),
            i <= y@.len(),
            x@ == a@,
            y@ == b@,
            seq_lt(a@, b@) == seq_lt(a@.skip(i as int), b@.skip(i as int)),
        decreases x@.len() - i,
    {
        proof {
            assert(a@.skip(i as int).drop_first() =~= a@.skip(i + 1));
            assert(b@.skip(i as int).drop_first() =~= b@.skip(i + 1));
        }
        i = i + 1;
    }
    if i == x.len() {
        i < y.len()
    } else if i == y.len() {
        false
    } else {
        (x[i] as u32) < (y[i] as u32)
    }
}

proof fn lemma_views_insert(v: Seq<String>, p: int, s: String)
    requires
        0 <= p <= v.len(),
    ensures
        views(v.insert(p, s)) == views(v).insert(p, s@),
{
    assert(views(v.insert(p, s)) =~= views(v).insert(p, s@));
}

/// Sorts a list of strings by `seq_lt`, keeping every string (as `slice::sort`).
pub fn sort_strings(v: Vec<String>) -> (r: Vec<String>)
    ensures
        views(r@).to_multiset() == views(v@).to_multiset(),
        is_sorted(views(r@)),
{
    let mut out: Vec<String> = Vec::new();
    let mut src = v;
    let ghost orig = views(src@);
    // Take the strings out one by one, from the back, and insert each in place.
    while src.len() > 0
        invariant
            orig.to_multiset() == views(out@).to_multiset().add(views(src@).to_multiset()),
            is_sorted(views(out@)),
        decreases src@.len(),
    {
        let ghost before_src = src@;
        let x = src.pop().unwrap();
        proof {
            assert(before_src =~= src@.push(x));
            assert(views(before_src) =~= views(src@).push(x@));
        }
        let mut p: usize = 0;
        while p < out.len() && !str_lt(x.as_str(), out[p].as_str())
            invariant
                p <= out@.len(),
                forall|k: int| 0 <= k < p ==> !seq_lt(x@, #[trigger] out@[k]@),
            decreases out@.len() - p,
        {
            p = p + 1;
        }
        let ghost before = out@;
        proof {
            lemma_views_insert(before, p as int, x);
            let w = views(before);
            assert forall|a: int, b: int| 0 <= a < b < w.len() + 1 implies seq_le(
                #[trigger] w.insert(p as int, x@)[a],
                #[trigger] w.insert(p as int, x@)[b],
            ) by {
                let wi = w.insert(p as int, x@);
                if b < p {
                    assert(wi[a] == w[a] && wi[b] == w[b]);
                } else if a > p {
                    assert(wi[a] == w[a - 1] && wi[b] == w[b - 1]);
                } else if a == p {
                    // x comes before before[p], which comes before or is before[b - 1].
                    assert(wi[b] == w[b - 1]);
                    assert(seq_lt(x@, w[p as int]));
                    if b - 1 > p {
                        assert(seq_le(w[p as int], w[b - 1]));
                        if seq_lt(w[p as int], w[b - 1]) {
                            lemma_lt_transitive(x@, w[p as int], w[b - 1]);
                        }
                    }
                } else {
                    // b == p: before[a] is not after x.
                    assert(wi[a] == w[a]);
                    assert(!seq_lt(x@, w[a]));
                    lemma_lt_total(x@, w[a]);
                }
            }
        }
        out.insert(p, x);
        proof {
            broadcast use vstd::multiset::group_multiset_axioms;
            assert(views(out@) == views(before).insert(p as int, x@));
            assert(views(out@).to_multiset() == views(before).to_multiset().insert(x@));
            assert(views(before_src).to_multiset() == views(src@).to_multiset().insert(x@));
            assert(orig.to_multiset() =~= views(out@).to_multiset().add(views(src@).to_multiset()));
        }
    }
    proof {
        assert(views(src@) =~= Seq::<Seq<char>>::empty());
        assert(views(src@).to_multiset() =~= vstd::multiset::Multiset::empty());
        assert(orig.to_multiset() =~= views(out@).to_multiset());
    }
    out
}

/// The keys of `entries` are in strictly increasing order, so each occurs once
/// (as in a map kept sorted by key).
pub open spec fn keys_in_order<V>(entries: Seq<(String, V)>) -> bool {
    forall|i: int, j: int| 0 <= i < j < entries.len() ==> seq_lt(entries[i].0@, entries[j].0@)
}

/// Keys in strictly increasing order are distinct.
pub proof fn lemma_keys_in_order_distinct<V>(entries: Seq<(String, V)>, i: int, j: int)
    requires
        keys_in_order(entries),
        0 <= i < entries.len(),
        0 <= j < entries.len(),
        i != j,
    ensures
        entries[i].0@ != entries[j].0@,
{
    if i < j {
        if entries[i].0@ == entries[j].0@ {
            lemma_lt_irreflexive(entries[i].0@);
        }
    } else {
        if entries[i].0@ == entries[j].0@ {
            lemma_lt_irreflexive(entries[j].0@);
        }
    }
}

} // verus!
