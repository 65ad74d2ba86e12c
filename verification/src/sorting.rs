//! Stable insertion sorts used to order listings: mail rows newest first,
//! message ids newest first, and names in lexicographic order.
use vstd::prelude::*;
use vstd::seq_lib::*;
use vstd::multiset::Multiset;
use crate::text::{chars_of, string_views};

verus! {

broadcast use vstd::seq_lib::group_seq_properties;

// ───────────────────────── rows by key, descending ─────────────────────────

/// The predicate "has key `k`" on keyed rows.
pub open spec fn has_key(k: u32) -> spec_fn((u32, String)) -> bool {
    |x: (u32, String)| x.0 == k
}

/// Rows ordered by key, largest first.
pub open spec fn keys_descending(s: Seq<(u32, String)>) -> bool {
    forall|i: int, j: int| 0 <= i < j < s.len() ==> s[i].0 >= s[j].0
}

/// `r` is `s` stably reordered: for every key, the rows with that key come in
/// the same order in both.
pub open spec fn same_rows_per_key(r: Seq<(u32, String)>, s: Seq<(u32, String)>) -> bool {
    forall|k: u32| #[trigger] r.filter(has_key(k)) == s.filter(has_key(k))
}

proof fn lemma_filter_none<A>(s: Seq<A>, f: spec_fn(A) -> bool)
    requires
        forall|i: int| 0 <= i < s.len() ==> !f(#[trigger] s[i]),
    ensures
        s.filter(f) == Seq::<A>::empty(),
{
    s.lemma_all_neg_filter_empty(f);
    assert(s.filter(f) =~= Seq::<A>::empty());
}

/// Sort rows by key, largest first, keeping rows with equal keys in their
/// original order (what a stable `sort_by(|a, b| b.0.cmp(&a.0))` does).
pub fn sort_rows_desc(rows: Vec<(u32, String)>) -> (r: Vec<(u32, String)>)
    ensures
        keys_descending(r@),
        same_rows_per_key(r@, rows@),
        r@.len() == rows@.len(),
{
    let mut out: Vec<(u32, String)> = Vec::new();
    let mut rest = rows;
    let ghost orig = rest@;
    // take rows from the front by reversing once, then popping
    let mut rev: Vec<(u32, String)> = Vec::new();
    while rest.len() > 0
        invariant
            rev@ + rest@.reverse() == orig.reverse(),
        decreases rest.len(),
    {
        let ghost before = rest@;
        let x = rest.pop().unwrap();
        proof {
            assert(before =~= rest@.push(x));
            assert(before.reverse() =~= seq![x] + rest@.reverse());
            assert(rev@.push(x) + rest@.reverse() =~= rev@ + before.reverse());
        }
        rev.push(x);
    }
    proof {
        assert(rev@ =~= orig.reverse());
    }
    while rev.len() > 0
        invariant
            rev@.len() + out@.len() == orig.len(),
            rev@.reverse() == orig.subrange(out@.len() as int, orig.len() as int),
            keys_descending(out@),
            forall|k: u32| #[trigger] out@.filter(has_key(k)) == orig.subrange(0, out@.len() as int).filter(has_key(k)),
        decreases rev.len(),
    {
        let ghost before = rev@;
        let ghost done: int = out@.len() as int;
        let x = rev.pop().unwrap();
        proof {
            assert(before =~= rev@.push(x));
            assert(before.reverse()[0] == x);
            assert(orig[done] == x);
            assert(rev@.reverse() =~= orig.subrange(done + 1, orig.len() as int)) by {
                assert(before.reverse() =~= seq![x] + rev@.reverse());
                assert((seq![x] + rev@.reverse()).drop_first() =~= rev@.reverse());
                assert(orig.subrange(done, orig.len() as int).drop_first() =~= orig.subrange(done + 1, orig.len() as int));
            }
        }
        // first position whose key is smaller than x's
        let mut p: usize = 0;
        while p < out.len() && out[p].0 >= x.0
            invariant
                p <= out@.len(),
                forall|m: int| 0 <= m < p ==> out@[m].0 >= x.0,
            decreases out@.len() - p,
        {
            p = p + 1;
        }
        let ghost prev = out@;
        let key = x.0;
        out.insert(p, x);
        proof {
            let a = prev.subrange(0, p as int);
            let b = prev.subrange(p as int, prev.len() as int);
            assert(prev =~= a + b);
            assert(out@ =~= a.push(x) + b);
            assert forall|m: int| 0 <= m < b.len() implies b[m].0 < key by {
                assert(b[m] == prev[p + m]);
                if m > 0 {
                    assert(prev[p as int].0 >= prev[p + m].0);
                }
            }
            assert forall|i2: int, j2: int| 0 <= i2 < j2 < out@.len() implies out@[i2].0 >= out@[j2].0 by {
                if j2 < p {
                } else if j2 == p {
                } else if i2 < p {
                    assert(out@[j2] == prev[j2 - 1]);
                } else if i2 == p {
                    assert(out@[j2] == b[j2 - 1 - p]);
                } else {
                    assert(out@[j2] == prev[j2 - 1]);
                    assert(out@[i2] == prev[i2 - 1]);
                }
            }
            assert forall|k: u32| #[trigger] out@.filter(has_key(k)) == orig.subrange(0, out@.len() as int).filter(has_key(k)) by {
                let f = has_key(k);
                Seq::filter_distributes_over_add(a.push(x), b, f);
                Seq::filter_distributes_over_add(a, b, f);
                a.lemma_filter_push(x, f);
                assert(orig.subrange(0, done + 1) =~= orig.subrange(0, done as int).push(x));
                orig.subrange(0, done as int).lemma_filter_push(x, f);
                assert(prev.filter(f) == orig.subrange(0, done as int).filter(f));
                if k == key {
                    assert forall|m: int| 0 <= m < b.len() implies !f(#[trigger] b[m]) by {
                    }
                    lemma_filter_none(b, f);
                    assert(a.filter(f) + Seq::<(u32, String)>::empty() =~= a.filter(f));
                    assert(a.filter(f).push(x) + Seq::<(u32, String)>::empty() =~= a.filter(f).push(x));
                }
            }
        }
    }
    proof {
        assert(orig.subrange(0, orig.len() as int) =~= orig);
    }
    out
}

// ───────────────────────── numbers, descending ─────────────────────────

/// Numbers ordered largest first.
pub open spec fn descending(s: Seq<u32>) -> bool {
    forall|i: int, j: int| 0 <= i < j < s.len() ==> s[i] >= s[j]
}

/// Sort numbers largest first.
pub fn sort_u32_desc(v: &Vec<u32>) -> (r: Vec<u32>)
    ensures
        descending(r@),
        r@.to_multiset() == v@.to_multiset(),
{
    let mut out: Vec<u32> = Vec::new();
    let mut i: usize = 0;
    while i < v.len()
        invariant
            i <= v.len(),
            descending(out@),
            out@.to_multiset() == v@.subrange(0, i as int).to_multiset(),
        decreases v.len() - i,
    {
        let x = v[i];
        let mut p: usize = 0;
        while p < out.len() && out[p] >= x
            invariant
                p <= out@.len(),
                forall|m: int| 0 <= m < p ==> out@[m] >= x,
            decreases out@.len() - p,
        {
            p = p + 1;
        }
        let ghost prev = out@;
        out.insert(p, x);
        proof {
            to_multiset_insert(prev, p as int, x);
            assert(v@.subrange(0, i + 1) =~= v@.subrange(0, i as int).push(x));
            assert(v@.subrange(0, i as int).push(x).to_multiset() == v@.subrange(0, i as int).to_multiset().insert(x)) by {
                broadcast use vstd::seq_lib::to_multiset_build;
            }
            assert forall|i2: int, j2: int| 0 <= i2 < j2 < out@.len() implies out@[i2] >= out@[j2] by {
                if j2 < p {
                } else if j2 == p {
                } else if i2 < p {
                    assert(out@[j2] == prev[j2 - 1]);
                } else if i2 == p {
                    assert(out@[j2] == prev[j2 - 1]);
                    if j2 - 1 > p {
                        assert(prev[p as int] >= prev[j2 - 1]);
                    }
                } else {
                    assert(out@[j2] == prev[j2 - 1]);
                    assert(out@[i2] == prev[i2 - 1]);
                }
            }
        }
        i = i + 1;
    }
    proof {
        assert(v@.subrange(0, v.len() as int) =~= v@);
    }
    out
}

// ───────────────────────── names, ascending ─────────────────────────

/// Lexicographic order on character sequences by code point (for UTF-8
/// strings the same as std's byte-wise `String` order).
pub open spec fn text_le(a: Seq<char>, b: Seq<char>) -> bool
    decreases a.len(),
{
    if a.len() == 0 {
        true
    } else if b.len() == 0 {
        false
    } else if a[0] != b[0] {
        a[0] < b[0]
    } else {
        text_le(a.drop_first(), b.drop_first())
    }
}

/// Strings ordered lexicographically.
pub open spec fn ascending(s: Seq<String>) -> bool {
    forall|i: int, j: int| 0 <= i < j < s.len() ==> text_le(s[i]@, s[j]@)
}

/// `text_le` is total.
pub proof fn lemma_text_le_total(a: Seq<char>, b: Seq<char>)
    ensures
        text_le(a, b) || text_le(b, a),
    decreases a.len(),
{
    if a.len() > 0 && b.len() > 0 && a[0] == b[0] {
        lemma_text_le_total(a.drop_first(), b.drop_first());
    }
}

/// `text_le` is transitive.
pub proof fn lemma_text_le_trans(a: Seq<char>, b: Seq<char>, c: Seq<char>)
    requires
        text_le(a, b),
        text_le(b, c),
    ensures
        text_le(a, c),
    decreases a.len(),
{
    if a.len() > 0 && b.len() > 0 && c.len() > 0 && a[0] == b[0] && b[0] == c[0] {
        lemma_text_le_trans(a.drop_first(), b.drop_first(), c.drop_first());
    }
}

/// `text_le` is antisymmetric.
pub proof fn lemma_text_le_antisym(a: Seq<char>, b: Seq<char>)
    requires
        text_le(a, b),
        text_le(b, a),
    ensures
        a == b,
    decreases a.len(),
{
    if a.len() > 0 && b.len() > 0 {
        lemma_text_le_antisym(a.drop_first(), b.drop_first());
        assert(a =~= seq![a[0]] + a.drop_first());
        assert(b =~= seq![b[0]] + b.drop_first());
    } else if a.len() == 0 && b.len() == 0 {
        assert(a =~= b);
    }
}

/// Texts in ascending order.
pub open spec fn texts_ascending(s: Seq<Seq<char>>) -> bool {
    forall|i: int, j: int| 0 <= i < j < s.len() ==> text_le(#[trigger] s[i], #[trigger] s[j])
}

/// Two ascending sequences of the same texts (with multiplicities) are equal.
pub proof fn lemma_ascending_unique(x: Seq<Seq<char>>, y: Seq<Seq<char>>)
    requires
        texts_ascending(x),
        texts_ascending(y),
        x.to_multiset() == y.to_multiset(),
    ensures
        x == y,
    decreases x.len(),
{
    x.to_multiset_ensures();
    y.to_multiset_ensures();
    assert(x.len() == x.to_multiset().len());
    assert(y.len() == y.to_multiset().len());
    if x.len() == 0 {
        assert(x =~= y);
    } else {
        assert(x.contains(x[0]));
        assert(x.to_multiset().count(x[0]) > 0);
        assert(y.contains(x[0]));
        let j = choose|j: int| 0 <= j < y.len() && y[j] == x[0];
        assert(y.contains(y[0]));
        assert(y.to_multiset().count(y[0]) > 0);
        assert(x.contains(y[0]));
        let i = choose|i: int| 0 <= i < x.len() && x[i] == y[0];
        lemma_text_le_total(x[0], x[0]);
        if j > 0 {
            assert(text_le(y[0], y[j]));
        }
        if i > 0 {
            assert(text_le(x[0], x[i]));
        }
        lemma_text_le_antisym(x[0], y[0]);
        let x2 = x.drop_first();
        let y2 = y.drop_first();
        assert(x.remove(0) =~= x2);
        assert(y.remove(0) =~= y2);
        assert(x2.to_multiset() == x.to_multiset().remove(x[0]));
        assert(y2.to_multiset() == y.to_multiset().remove(y[0]));
        assert(x2.to_multiset() == y2.to_multiset());
        assert forall|a: int, b: int| 0 <= a < b < x2.len() implies text_le(#[trigger] x2[a], #[trigger] x2[b]) by {
            assert(text_le(x[a + 1], x[b + 1]));
        }
        assert forall|a: int, b: int| 0 <= a < b < y2.len() implies text_le(#[trigger] y2[a], #[trigger] y2[b]) by {
            assert(text_le(y[a + 1], y[b + 1]));
        }
        lemma_ascending_unique(x2, y2);
        assert(x =~= y);
    }
}

/// Whether `a` comes strictly before `b`.
pub fn text_lt(a: &Vec<char>, b: &Vec<char>) -> (r: bool)
    ensures
        r == !text_le(b@, a@),
{
    let mut i: usize = 0;
    while i < a.len() && i < b.len() && a[i] == b[i]
        invariant
            i <= a.len(),
            i <= b.len(),
            forall|m: int| 0 <= m < i ==> a@[m] == b@[m],
            text_le(b@, a@) == text_le(b@.skip(i as int), a@.skip(i as int)),
        decreases a.len() - i,
    {
        proof {
            let bs = b@.skip(i as int);
            let as_ = a@.skip(i as int);
            assert(bs.drop_first() =~= b@.skip(i + 1));
            assert(as_.drop_first() =~= a@.skip(i + 1));
        }
        i = i + 1;
    }
    proof {
        let bs = b@.skip(i as int);
        let as_ = a@.skip(i as int);
        if i < a.len() && i < b.len() {
            assert(bs[0] == b@[i as int]);
            assert(as_[0] == a@[i as int]);
        }
    }
    if i < a.len() && i < b.len() {
        a[i] < b[i]
    } else {
        i < b.len()
    }
}

/// Sort strings lexicographically (the order of `Vec<String>::sort`).
pub fn sort_strings(v: Vec<String>) -> (r: Vec<String>)
    ensures
        ascending(r@),
        string_views(r@).to_multiset() == string_views(v@).to_multiset(),
{
    let mut rest = v;
    let ghost orig = rest@;
    let mut rev: Vec<String> = Vec::new();
    while rest.len() > 0
        invariant
            rev@ + rest@.reverse() == orig.reverse(),
        decreases rest.len(),
    {
        let ghost before = rest@;
        let x = rest.pop().unwrap();
        proof {
            assert(before =~= rest@.push(x));
            assert(before.reverse() =~= seq![x] + rest@.reverse());
            assert(rev@.push(x) + rest@.reverse() =~= rev@ + before.reverse());
        }
        rev.push(x);
    }
    proof {
        assert(rev@ =~= orig.reverse());
        assert(string_views(rev@) =~= string_views(orig).reverse());
        string_views(orig).lemma_reverse_to_multiset();
    }
    let mut out: Vec<String> = Vec::new();
    proof {
        assert(string_views(out@).to_multiset().add(string_views(rev@).to_multiset()) == string_views(orig).to_multiset()) by {
            broadcast use vstd::multiset::group_multiset_axioms;
            assert(string_views(out@).to_multiset() =~= Multiset::empty());
        }
    }
    while rev.len() > 0
        invariant
            ascending(out@),
            string_views(out@).to_multiset().add(string_views(rev@).to_multiset()) == string_views(orig).to_multiset(),
        decreases rev.len(),
    {
        let ghost before = rev@;
        let x = rev.pop().unwrap();
        let xc = chars_of(x.as_str());
        let mut p: usize = 0;
        while p < out.len() && !text_lt(&xc, &chars_of(out[p].as_str()))
            invariant
                p <= out@.len(),
                xc@ == x@,
                forall|m: int| 0 <= m < p ==> text_le(out@[m]@, x@),
            decreases out@.len() - p,
        {
            proof {
                lemma_text_le_total(x@, out@[p as int]@);
            }
            p = p + 1;
        }
        let ghost prev = out@;
        out.insert(p, x);
        proof {
            broadcast use vstd::multiset::group_multiset_axioms;
            assert(string_views(out@) =~= string_views(prev).insert(p as int, x@));
            to_multiset_insert(string_views(prev), p as int, x@);
            assert(before =~= rev@.push(x));
            assert(string_views(before) =~= string_views(rev@).push(x@));
            assert(string_views(before).to_multiset() == string_views(rev@).to_multiset().insert(x@)) by {
                broadcast use vstd::seq_lib::to_multiset_build;
            }
            assert(string_views(out@).to_multiset().add(string_views(rev@).to_multiset()) =~= string_views(prev).to_multiset().add(string_views(before).to_multiset()));
            if p < prev.len() {
                lemma_text_le_total(x@, prev[p as int]@);
            }
            assert forall|i2: int, j2: int| 0 <= i2 < j2 < out@.len() implies text_le(out@[i2]@, out@[j2]@) by {
                if j2 < p {
                } else if j2 == p {
                } else if i2 < p {
                    assert(out@[j2] == prev[j2 - 1]);
                    assert(text_le(prev[i2]@, x@));
                    if j2 - 1 > p {
                        assert(text_le(prev[p as int]@, prev[j2 - 1]@));
                        lemma_text_le_trans(x@, prev[p as int]@, prev[j2 - 1]@);
                    }
                    lemma_text_le_trans(prev[i2]@, x@, prev[j2 - 1]@);
                } else if i2 == p {
                    assert(out@[j2] == prev[j2 - 1]);
                    if j2 - 1 > p {
                        assert(text_le(prev[p as int]@, prev[j2 - 1]@));
                        lemma_text_le_trans(x@, prev[p as int]@, prev[j2 - 1]@);
                    }
                } else {
                    assert(out@[j2] == prev[j2 - 1]);
                    assert(out@[i2] == prev[i2 - 1]);
                }
            }
        }
    }
    proof {
        broadcast use vstd::multiset::group_multiset_axioms;
        assert(string_views(rev@).to_multiset() =~= Multiset::empty());
        assert(string_views(out@).to_multiset() =~= string_views(out@).to_multiset().add(string_views(rev@).to_multiset()));
    }
    out
}

} // verus!
