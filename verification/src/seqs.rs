//! Facts about sequences that the store's queries rest on.

use vstd::prelude::*;

verus! {

/// The first element of `s` that satisfies `p`, if any.
pub open spec fn first_where<A>(s: Seq<A>, p: spec_fn(A) -> bool) -> Option<A> {
    if s.filter(p).len() > 0 {
        Some(s.filter(p)[0])
    } else {
        None
    }
}

/// A prefix without a match, extended by an element without a match, has no match.
pub proof fn lemma_no_match_step<A>(s: Seq<A>, p: spec_fn(A) -> bool, i: int)
    requires
        0 <= i < s.len(),
        s.take(i).filter(p).len() == 0,
        !p(s[i]),
    ensures
        s.take(i + 1).filter(p).len() == 0,
{
    reveal_with_fuel(Seq::filter, 1);
    assert(s.take(i + 1).drop_last() =~= s.take(i));
    assert(s.take(i + 1).last() == s[i]);
}

/// The first element that satisfies `p` after a prefix without a match is
/// the first match of the whole sequence.
pub proof fn lemma_first_where_found<A>(s: Seq<A>, p: spec_fn(A) -> bool, i: int)
    requires
        0 <= i < s.len(),
        s.take(i).filter(p).len() == 0,
        p(s[i]),
    ensures
        first_where(s, p) == Some(s[i]),
{
    assert(s =~= s.take(i) + s.skip(i));
    Seq::filter_distributes_over_add(s.take(i), s.skip(i), p);
    assert(s.take(i).filter(p) =~= Seq::<A>::empty());
    assert(s.skip(i) =~= seq![s[i]] + s.skip(i + 1));
    Seq::filter_distributes_over_add(seq![s[i]], s.skip(i + 1), p);
    reveal_with_fuel(Seq::filter, 2);
    assert(seq![s[i]].drop_last() =~= Seq::<A>::empty());
    assert(seq![s[i]].filter(p) =~= seq![s[i]]);
    assert(s.filter(p) =~= seq![s[i]] + s.skip(i + 1).filter(p));
}

/// A sequence whose every prefix lacks a match has no first match.
pub proof fn lemma_first_where_none<A>(s: Seq<A>, p: spec_fn(A) -> bool)
    requires
        s.take(s.len() as int).filter(p).len() == 0,
    ensures
        first_where(s, p) is None,
{
    assert(s.take(s.len() as int) =~= s);
}

/// The first match is an element of the sequence that satisfies the predicate.
pub proof fn lemma_first_where_member<A>(s: Seq<A>, p: spec_fn(A) -> bool)
    ensures
        first_where(s, p) matches Some(x) ==> s.contains(x) && p(x),
        first_where(s, p) is None ==> forall|x: A| #[trigger] s.contains(x) ==> !p(x),
{
    crate::store::lemma_filter_members(s, p);
    if s.filter(p).len() > 0 {
        assert(s.filter(p).contains(s.filter(p)[0]));
    } else {
        assert forall|x: A| #[trigger] s.contains(x) implies !p(x) by {
            if p(x) {
                assert(s.filter(p).contains(x));
            }
        }
    }
}

/// The index of the first element of `s` that satisfies `p`, if any.
pub open spec fn first_index<A>(s: Seq<A>, p: spec_fn(A) -> bool) -> Option<int> {
    if exists|i: int| 0 <= i < s.len() && #[trigger] p(s[i]) {
        Some(choose|i: int| 0 <= i < s.len() && #[trigger] p(s[i]) && forall|k: int| 0 <= k < i ==> !p(s[k]))
    } else {
        None
    }
}

/// An element satisfying `p` with none before it sits at the first index.
pub proof fn lemma_first_index<A>(s: Seq<A>, p: spec_fn(A) -> bool, i: int)
    requires
        0 <= i < s.len(),
        p(s[i]),
        forall|k: int| 0 <= k < i ==> !p(s[k]),
    ensures
        first_index(s, p) == Some(i),
{
    let j = choose|j: int| 0 <= j < s.len() && #[trigger] p(s[j]) && forall|k: int| 0 <= k < j ==> !p(s[k]);
    if j < i {
        assert(!p(s[j]));
    } else if j > i {
        assert(!p(s[i]));
    }
}

/// Without an element satisfying `p` there is no first index.
pub proof fn lemma_first_index_none<A>(s: Seq<A>, p: spec_fn(A) -> bool)
    requires
        forall|k: int| 0 <= k < s.len() ==> !p(s[k]),
    ensures
        first_index(s, p) is None,
{
}

/// The first index, when there is one, points at an element satisfying `p`
/// with none before it.
pub proof fn lemma_first_index_props<A>(s: Seq<A>, p: spec_fn(A) -> bool)
    ensures
        first_index(s, p) matches Some(i) ==> 0 <= i < s.len() && p(s[i]) && forall|k: int| 0 <= k < i ==> !p(s[k]),
        first_index(s, p) is None ==> forall|k: int| 0 <= k < s.len() ==> !p(s[k]),
{
    if exists|i: int| 0 <= i < s.len() && #[trigger] p(s[i]) {
        let i = choose|i: int| 0 <= i < s.len() && #[trigger] p(s[i]);
        lemma_min_witness(s, p, i);
    } else {
        assert forall|k: int| 0 <= k < s.len() implies !p(s[k]) by {
            if p(s[k]) {
                assert(exists|i: int| 0 <= i < s.len() && #[trigger] p(s[i]));
            }
        }
    }
}

/// Below any element satisfying `p` there is a first one.
proof fn lemma_min_witness<A>(s: Seq<A>, p: spec_fn(A) -> bool, i: int)
    requires
        0 <= i < s.len(),
        p(s[i]),
    ensures
        exists|j: int| 0 <= j <= i && #[trigger] p(s[j]) && forall|k: int| 0 <= k < j ==> !p(s[k]),
    decreases i,
{
    if exists|k: int| 0 <= k < i && #[trigger] p(s[k]) {
        let k = choose|k: int| 0 <= k < i && #[trigger] p(s[k]);
        lemma_min_witness(s, p, k);
    } else {
        assert(forall|k: int| 0 <= k < i ==> !p(s[k]));
    }
}

/// A prefix whose elements all fail `p` has no match.
pub proof fn lemma_no_match_prefix<A>(s: Seq<A>, p: spec_fn(A) -> bool, i: int)
    requires
        0 <= i <= s.len(),
        forall|k: int| 0 <= k < i ==> !p(s[k]),
    ensures
        s.take(i).filter(p).len() == 0,
    decreases i,
{
    if i == 0 {
        assert(s.take(0) =~= Seq::<A>::empty());
        reveal_with_fuel(Seq::filter, 1);
    } else {
        lemma_no_match_prefix(s, p, i - 1);
        lemma_no_match_step(s, p, i - 1);
    }
}

/// The first match is the element at the first index.
pub proof fn lemma_first_where_index<A>(s: Seq<A>, p: spec_fn(A) -> bool)
    ensures
        first_index(s, p) matches Some(i) ==> first_where(s, p) == Some(s[i]),
        first_index(s, p) is None ==> first_where(s, p) is None,
{
    lemma_first_index_props(s, p);
    if let Some(i) = first_index(s, p) {
        lemma_no_match_prefix(s, p, i);
        lemma_first_where_found(s, p, i);
    } else {
        lemma_no_match_prefix(s, p, s.len() as int);
        lemma_first_where_none(s, p);
    }
}

/// `s` with its elements ordered by `key`, ascending.
pub open spec fn sorted_by_key<A>(s: Seq<A>, key: spec_fn(A) -> int) -> bool {
    forall|i: int, j: int| 0 <= i <= j < s.len() ==> key(s[i]) <= key(s[j])
}

/// Filtering and counting commute: the filtered sequence holds each
/// element that passes as often as the sequence does.
pub proof fn lemma_filter_to_multiset<A>(s: Seq<A>, p: spec_fn(A) -> bool)
    ensures
        s.filter(p).to_multiset() =~= s.to_multiset().filter(p),
    decreases s.len(),
{
    broadcast use vstd::multiset::group_multiset_axioms, vstd::seq_lib::to_multiset_build,
        vstd::seq_lib::group_to_multiset_ensures;
    if s.len() == 0 {
        assert(s.filter(p) =~= Seq::<A>::empty());
    } else {
        let rest = s.drop_last();
        let x = s.last();
        lemma_filter_to_multiset(rest, p);
        assert(s =~= rest.push(x));
        reveal_with_fuel(Seq::filter, 1);
        if p(x) {
            assert(s.filter(p) =~= rest.filter(p).push(x));
        } else {
            assert(s.filter(p) =~= rest.filter(p));
        }
        assert forall|v: A| #[trigger] s.filter(p).to_multiset().count(v) == s.to_multiset().filter(p).count(v) by {
        }
    }
}

/// A filtered sequence stays sorted.
pub proof fn lemma_filter_sorted<A>(s: Seq<A>, p: spec_fn(A) -> bool, key: spec_fn(A) -> int)
    requires
        sorted_by_key(s, key),
    ensures
        sorted_by_key(s.filter(p), key),
    decreases s.len(),
{
    if s.len() > 0 {
        let rest = s.drop_last();
        let x = s.last();
        assert(sorted_by_key(rest, key));
        lemma_filter_sorted(rest, p, key);
        reveal_with_fuel(Seq::filter, 1);
        assert(s =~= rest.push(x));
        if p(x) {
            let f = rest.filter(p);
            assert(s.filter(p) =~= f.push(x));
            assert forall|i: int| 0 <= i < f.len() implies key(#[trigger] f[i]) <= key(x) by {
                assert(f.contains(f[i]));
                rest.lemma_filter_contains_rev(p, f[i]);
                let k = choose|k: int| 0 <= k < rest.len() && rest[k] == f[i];
                assert(s[k] == rest[k]);
            }
        } else {
            assert(s.filter(p) =~= rest.filter(p));
        }
    }
}

/// The first `j + 1` elements hold what the first `j` do, and the element at `j`.
pub proof fn lemma_take_push_contains<A>(s: Seq<A>, j: int)
    requires
        0 <= j < s.len(),
    ensures
        forall|v: A| #[trigger] s.take(j + 1).contains(v) <==> s.take(j).contains(v) || v == s[j],
{
    let t0 = s.take(j);
    let t1 = s.take(j + 1);
    assert forall|v: A| #[trigger] t1.contains(v) <==> t0.contains(v) || v == s[j] by {
        if t1.contains(v) {
            let k = choose|k: int| 0 <= k < t1.len() && t1[k] == v;
            if k < j {
                assert(t0[k] == v);
            }
        }
        if t0.contains(v) {
            let k = choose|k: int| 0 <= k < t0.len() && t0[k] == v;
            assert(t1[k] == v);
        }
        if v == s[j] {
            assert(t1[j] == v);
        }
    }
}

/// Replacing the first element that passes by another that passes makes
/// the new one the first that passes.
pub proof fn lemma_first_where_update<A>(s: Seq<A>, p: spec_fn(A) -> bool, i: int, x: A)
    requires
        first_index(s, p) == Some(i),
        p(x),
    ensures
        first_where(s.update(i, x), p) == Some(x),
{
    lemma_first_index_props(s, p);
    let t = s.update(i, x);
    assert forall|k: int| 0 <= k < i implies !p(t[k]) by {
        assert(t[k] == s[k]);
    }
    lemma_no_match_prefix(t, p, i);
    lemma_first_where_found(t, p, i);
}

/// After appending an element that passes to a sequence where none
/// passes, it is the first that passes.
pub proof fn lemma_first_where_push_new<A>(s: Seq<A>, p: spec_fn(A) -> bool, x: A)
    requires
        forall|k: int| 0 <= k < s.len() ==> !p(#[trigger] s[k]),
        p(x),
    ensures
        first_where(s.push(x), p) == Some(x),
{
    let t = s.push(x);
    assert forall|k: int| 0 <= k < s.len() implies !p(t[k]) by {
        assert(t[k] == s[k]);
    }
    lemma_no_match_prefix(t, p, s.len() as int);
    lemma_first_where_found(t, p, s.len() as int);
}

/// After removing every element that passes, none is found.
pub proof fn lemma_first_where_filtered_out<A>(s: Seq<A>, p: spec_fn(A) -> bool, q: spec_fn(A) -> bool)
    requires
        forall|a: A| #[trigger] q(a) ==> !p(a),
    ensures
        first_where(s.filter(q), p) is None,
{
    crate::store::lemma_filter_members(s, q);
    lemma_first_where_member(s.filter(q), p);
    if first_where(s.filter(q), p) is Some {
        let x = first_where(s.filter(q), p).unwrap();
        assert(s.filter(q).contains(x));
    }
}

} // verus!
