//! Generic facts about sequences used by the record collections.
use vstd::prelude::*;

verus! {

/// The first element of `s` that satisfies `pred`.
pub open spec fn first_match<A>(s: Seq<A>, pred: spec_fn(A) -> bool) -> Option<A>
    decreases s.len(),
{
    if s.len() == 0 {
        None
    } else {
        match first_match(s.drop_last(), pred) {
            Some(x) => Some(x),
            None => if pred(s.last()) {
                Some(s.last())
            } else {
                None
            },
        }
    }
}

/// Once a prefix holds a match, the first match of the whole sequence is
/// that one.
pub proof fn lemma_first_match_prefix<A>(s: Seq<A>, pred: spec_fn(A) -> bool, k: int)
    requires
        0 <= k <= s.len(),
        first_match(s.take(k), pred) is Some,
    ensures
        first_match(s, pred) == first_match(s.take(k), pred),
    decreases s.len() - k,
{
    if k == s.len() {
        assert(s.take(k) =~= s);
    } else {
        let t = s.take(k + 1);
        assert(t.drop_last() =~= s.take(k));
        assert(first_match(t, pred) == first_match(s.take(k), pred));
        lemma_first_match_prefix(s, pred, k + 1);
    }
}

/// A prefix with no match followed by a matching element: that element is
/// the first match.
pub proof fn lemma_first_match_at<A>(s: Seq<A>, pred: spec_fn(A) -> bool, k: int)
    requires
        0 <= k < s.len(),
        first_match(s.take(k), pred) is None,
        pred(s[k]),
    ensures
        first_match(s, pred) == Some(s[k]),
{
    let t = s.take(k + 1);
    assert(t.drop_last() =~= s.take(k));
    lemma_first_match_prefix(s, pred, k + 1);
}

/// When some element satisfies `pred`, the first match is one that does.
pub proof fn lemma_first_match_some<A>(s: Seq<A>, pred: spec_fn(A) -> bool, k: int)
    requires
        0 <= k < s.len(),
        pred(s[k]),
    ensures
        first_match(s, pred) matches Some(x) && pred(x) && s.contains(x),
    decreases s.len(),
{
    let t = s.drop_last();
    if k < s.len() - 1 {
        lemma_first_match_some(t, pred, k);
        let x = first_match(t, pred)->0;
        let i = choose|i: int| 0 <= i < t.len() && t[i] == x;
        assert(s[i] == x);
    } else {
        match first_match(t, pred) {
            Some(x) => {
                lemma_first_match_holds(t, pred);
                let i = choose|i: int| 0 <= i < t.len() && t[i] == x;
                assert(s[i] == x);
            },
            None => {
                assert(s[s.len() - 1] == s.last());
            },
        }
    }
}

/// The first match satisfies `pred` and occurs in `s`.
pub proof fn lemma_first_match_holds<A>(s: Seq<A>, pred: spec_fn(A) -> bool)
    ensures
        first_match(s, pred) matches Some(x) ==> pred(x) && s.contains(x),
    decreases s.len(),
{
    if s.len() > 0 {
        let t = s.drop_last();
        lemma_first_match_holds(t, pred);
        if let Some(x) = first_match(t, pred) {
            let i = choose|i: int| 0 <= i < t.len() && t[i] == x;
            assert(s[i] == x);
        } else if pred(s.last()) {
            assert(s[s.len() - 1] == s.last());
        }
    }
}

/// One more element extends the filter of a prefix.
pub proof fn lemma_filter_step<A>(s: Seq<A>, pred: spec_fn(A) -> bool, k: int)
    requires
        0 <= k < s.len(),
    ensures
        s.take(k + 1).filter(pred) == if pred(s[k]) {
            s.take(k).filter(pred).push(s[k])
        } else {
            s.take(k).filter(pred)
        },
{
    reveal(Seq::filter);
    let t = s.take(k + 1);
    assert(t.drop_last() =~= s.take(k));
}

/// No match in a prefix and none in the rest: no match at all.
pub proof fn lemma_first_match_none<A>(s: Seq<A>, pred: spec_fn(A) -> bool, k: int)
    requires
        0 <= k < s.len(),
        first_match(s.take(k), pred) is None,
        !pred(s[k]),
    ensures
        first_match(s.take(k + 1), pred) is None,
{
    let t = s.take(k + 1);
    assert(t.drop_last() =~= s.take(k));
}

/// The distinct elements of `s`, in order of first appearance.
pub open spec fn distinct<A>(s: Seq<A>) -> Seq<A>
    decreases s.len(),
{
    if s.len() == 0 {
        Seq::<A>::empty()
    } else {
        let d = distinct(s.drop_last());
        if d.contains(s.last()) {
            d
        } else {
            d.push(s.last())
        }
    }
}


/// The distinct elements of a sequence occur once each.
pub proof fn lemma_distinct_unique<A>(s: Seq<A>)
    ensures
        forall|i: int, j: int|
            0 <= i < j < distinct(s).len() ==> distinct(s)[i] != distinct(s)[j],
    decreases s.len(),
{
    if s.len() > 0 {
        lemma_distinct_unique(s.drop_last());
        let d = distinct(s.drop_last());
        if !d.contains(s.last()) {
            assert forall|i: int, j: int| 0 <= i < j < d.push(s.last()).len() implies d.push(
                s.last(),
            )[i] != d.push(s.last())[j] by {
                if j == d.len() {
                    assert(d[i] != s.last());
                }
            }
        }
    }
}

/// What occurs in `s` occurs among its distinct elements.
pub proof fn lemma_distinct_contains<A>(s: Seq<A>, x: A)
    requires
        s.contains(x),
    ensures
        distinct(s).contains(x),
    decreases s.len(),
{
    let t = s.drop_last();
    if s.last() == x {
        let d = distinct(t);
        if !d.contains(x) {
            assert(d.push(x)[d.len() as int] == x);
        }
    } else {
        let i = choose|i: int| 0 <= i < s.len() && s[i] == x;
        assert(t[i] == x);
        lemma_distinct_contains(t, x);
        let d = distinct(t);
        if !d.contains(s.last()) {
            let k = choose|k: int| 0 <= k < d.len() && d[k] == x;
            assert(d.push(s.last())[k] == x);
        }
    }
}

} // verus!
