//! Small verified helpers on `Vec`, shared by the record store and the
//! manager: in-place update, membership, and a lemma about filtering a
//! sequence that grows at the end.

use vstd::prelude::*;

verus! {

/// Replaces the element at `i`.
pub fn vec_update<T>(v: &mut Vec<T>, i: usize, x: T)
    requires
        i < old(v)@.len(),
    ensures
        final(v)@ == old(v)@.update(i as int, x),
{
    v.remove(i);
    v.insert(i, x);
    proof {
        assert(v@ =~= old(v)@.update(i as int, x));
    }
}

/// Whether `x` occurs in `v`.
pub fn vec_contains_i64(v: &Vec<i64>, x: i64) -> (r: bool)
    ensures
        r == v@.contains(x),
{
    let n: usize = v.len();
    let mut i: usize = 0;
    while i < n
        invariant
            i <= n,
            n == v@.len(),
            forall|j: int| 0 <= j < i ==> v@[j] != x,
        decreases n - i,
    {
        if v[i] == x {
            return true;
        }
        i = i + 1;
    }
    false
}

/// Index of the first element satisfying `pred`, if any.
pub open spec fn spec_find<A>(s: Seq<A>, pred: spec_fn(A) -> bool) -> Option<int>
    decreases s.len(),
{
    if s.len() == 0 {
        None
    } else if pred(s[0]) {
        Some(0)
    } else {
        match spec_find(s.subrange(1, s.len() as int), pred) {
            Some(i) => Some(i + 1),
            None => None,
        }
    }
}

/// What `spec_find` returns: the first matching index, or `None` when
/// nothing matches.
pub proof fn lemma_spec_find<A>(s: Seq<A>, pred: spec_fn(A) -> bool)
    ensures
        match spec_find(s, pred) {
            Some(i) => 0 <= i < s.len() && pred(s[i]) && (forall|j: int|
                0 <= j < i ==> !pred(s[j])),
            None => forall|j: int| 0 <= j < s.len() ==> !pred(s[j]),
        },
    decreases s.len(),
{
    if s.len() > 0 && !pred(s[0]) {
        let t = s.subrange(1, s.len() as int);
        lemma_spec_find(t, pred);
        if spec_find(t, pred) is Some {
            let i = spec_find(t, pred)->Some_0;
            assert(spec_find(s, pred) == Some(i + 1));
            assert(pred(s[i + 1])) by {
                assert(t[i] == s[i + 1]);
            }
            assert forall|j: int| 0 <= j < i + 1 implies !pred(s[j]) by {
                if j > 0 {
                    assert(t[j - 1] == s[j]);
                }
            }
        } else {
            assert forall|j: int| 0 <= j < s.len() implies !pred(s[j]) by {
                if j > 0 {
                    assert(t[j - 1] == s[j]);
                }
            }
        }
    }
}

/// A first matching index determines `spec_find`.
pub proof fn lemma_spec_find_is_first<A>(s: Seq<A>, pred: spec_fn(A) -> bool, i: int)
    requires
        0 <= i < s.len(),
        pred(s[i]),
        forall|j: int| 0 <= j < i ==> !pred(s[j]),
    ensures
        spec_find(s, pred) == Some(i),
    decreases s.len(),
{
    if i > 0 {
        lemma_spec_find_is_first(s.subrange(1, s.len() as int), pred, i - 1);
    }
}

/// A sequence with no matching element has no `spec_find` result.
pub proof fn lemma_spec_find_none<A>(s: Seq<A>, pred: spec_fn(A) -> bool)
    requires
        forall|j: int| 0 <= j < s.len() ==> !pred(s[j]),
    ensures
        spec_find(s, pred) is None,
    decreases s.len(),
{
    if s.len() > 0 {
        lemma_spec_find_none(s.subrange(1, s.len() as int), pred);
    }
}

/// Filtering commutes with appending one element.
pub proof fn lemma_filter_push<A>(s: Seq<A>, x: A, pred: spec_fn(A) -> bool)
    ensures
        s.push(x).filter(pred) == if pred(x) {
            s.filter(pred).push(x)
        } else {
            s.filter(pred)
        },
{
    reveal(Seq::filter);
    assert(s.push(x).drop_last() =~= s);
    assert(s.push(x).last() == x);
}

/// Mapping commutes with appending one element.
pub proof fn lemma_map_push<A, B>(s: Seq<A>, f: spec_fn(A) -> B, x: A)
    ensures
        s.push(x).map_values(f) == s.map_values(f).push(f(x)),
{
    assert(s.push(x).map_values(f) =~= s.map_values(f).push(f(x)));
}

/// Every element of a filtered sequence occurs in the sequence it was
/// filtered from.
pub proof fn lemma_filter_subset<A>(s: Seq<A>, pred: spec_fn(A) -> bool)
    ensures
        forall|i: int| 0 <= i < s.filter(pred).len() ==> s.contains(#[trigger] s.filter(pred)[i]),
    decreases s.len(),
{
    reveal(Seq::filter);
    if s.len() > 0 {
        let s0 = s.drop_last();
        lemma_filter_subset(s0, pred);
        assert forall|i: int| 0 <= i < s.filter(pred).len() implies s.contains(
            #[trigger] s.filter(pred)[i],
        ) by {
            if i < s0.filter(pred).len() {
                let k = choose|k: int| 0 <= k < s0.len() && s0[k] == s0.filter(pred)[i];
                assert(s[k] == s0.filter(pred)[i]);
            } else {
                assert(s.filter(pred)[i] == s.last());
            }
        }
    }
}

/// A property that holds of every element also holds of every element left
/// by a filter.
pub proof fn lemma_filter_preserves<A>(s: Seq<A>, pred: spec_fn(A) -> bool, prop: spec_fn(A) -> bool)
    requires
        forall|i: int| 0 <= i < s.len() ==> prop(#[trigger] s[i]),
    ensures
        forall|i: int| 0 <= i < s.filter(pred).len() ==> prop(#[trigger] s.filter(pred)[i]),
{
    lemma_filter_subset(s, pred);
    assert forall|i: int| 0 <= i < s.filter(pred).len() implies prop(
        #[trigger] s.filter(pred)[i],
    ) by {
        let k = choose|k: int| 0 <= k < s.len() && s[k] == s.filter(pred)[i];
    }
}

/// Filtering keeps pairwise-distinct keys pairwise distinct.
pub proof fn lemma_filter_unique_by<A>(s: Seq<A>, pred: spec_fn(A) -> bool, key: spec_fn(A) -> int)
    requires
        forall|i: int, j: int| 0 <= i < j < s.len() ==> key(#[trigger] s[i]) != key(#[trigger] s[j]),
    ensures
        forall|i: int, j: int|
            0 <= i < j < s.filter(pred).len() ==> key(#[trigger] s.filter(pred)[i]) != key(
                #[trigger] s.filter(pred)[j],
            ),
    decreases s.len(),
{
    reveal(Seq::filter);
    if s.len() > 0 {
        let s0 = s.drop_last();
        lemma_filter_unique_by(s0, pred, key);
        lemma_filter_subset(s0, pred);
        assert forall|i: int, j: int| 0 <= i < j < s.filter(pred).len() implies key(
            #[trigger] s.filter(pred)[i],
        ) != key(#[trigger] s.filter(pred)[j]) by {
            if j < s0.filter(pred).len() {
                assert(s.filter(pred)[i] == s0.filter(pred)[i]);
                assert(s.filter(pred)[j] == s0.filter(pred)[j]);
            } else {
                assert(s.filter(pred)[j] == s.last());
                assert(s.filter(pred)[i] == s0.filter(pred)[i]);
                let k = choose|k: int| 0 <= k < s0.len() && s0[k] == s0.filter(pred)[i];
                assert(s[k] == s.filter(pred)[i]);
                assert(key(s[k]) != key(s[s.len() - 1]));
            }
        }
    }
}

} // verus!
