//! The order of texts, and stable sorting by a total preorder.
use vstd::prelude::*;

verus! {

broadcast use vstd::seq_lib::group_seq_properties;

/// `a` comes before `b` in the order `str` compares in: character by
/// character by code point (which is the order of their UTF-8 bytes), a
/// proper prefix first.
pub open spec fn text_lt(a: Seq<char>, b: Seq<char>) -> bool
    decreases a.len(),
{
    if a.len() == 0 {
        b.len() > 0
    } else if b.len() == 0 {
        false
    } else if a[0] != b[0] {
        a[0] < b[0]
    } else {
        text_lt(a.drop_first(), b.drop_first())
    }
}

/// `a` comes before `b` or equals it.
pub open spec fn text_le(a: Seq<char>, b: Seq<char>) -> bool {
    text_lt(a, b) || a == b
}

/// The order of texts as a relation.
pub open spec fn text_order() -> spec_fn(Seq<char>, Seq<char>) -> bool {
    |a: Seq<char>, b: Seq<char>| text_le(a, b)
}

/// No text comes before itself.
pub proof fn lemma_text_lt_irreflexive(a: Seq<char>)
    ensures
        !text_lt(a, a),
    decreases a.len(),
{
    if a.len() > 0 {
        lemma_text_lt_irreflexive(a.drop_first());
    }
}

/// Of two texts, one comes before the other, or they are equal; never both
/// come before each other.
pub proof fn lemma_text_trichotomy(a: Seq<char>, b: Seq<char>)
    ensures
        text_lt(a, b) || a == b || text_lt(b, a),
        !(text_lt(a, b) && text_lt(b, a)),
    decreases a.len(),
{
    if a.len() == 0 && b.len() == 0 {
        assert(a =~= b);
    }
    if a.len() > 0 && b.len() > 0 && a[0] == b[0] {
        lemma_text_trichotomy(a.drop_first(), b.drop_first());
        if a.drop_first() == b.drop_first() {
            assert(a =~= b) by {
                assert forall|i: int| 0 <= i < a.len() implies a[i] == b[i] by {
                    if i > 0 {
                        assert(a[i] == a.drop_first()[i - 1]);
                        assert(b[i] == b.drop_first()[i - 1]);
                    }
                }
            }
        }
    }
}

/// The order of texts is transitive.
pub proof fn lemma_text_lt_transitive(a: Seq<char>, b: Seq<char>, c: Seq<char>)
    requires
        text_lt(a, b),
        text_lt(b, c),
    ensures
        text_lt(a, c),
    decreases a.len(),
{
    if a.len() > 0 && b.len() > 0 && c.len() > 0 && a[0] == b[0] && b[0] == c[0] {
        lemma_text_lt_transitive(a.drop_first(), b.drop_first(), c.drop_first());
    }
}

/// The order of texts is a total order.
pub proof fn lemma_text_order_total_preorder()
    ensures
        total_preorder(text_order()),
{
    assert forall|a: Seq<char>, b: Seq<char>|
        #[trigger] (text_order())(a, b) || (text_order())(b, a) by {
        lemma_text_trichotomy(a, b);
    }
    assert forall|a: Seq<char>, b: Seq<char>, c: Seq<char>|
        #[trigger] (text_order())(a, b) && #[trigger] (text_order())(b, c) implies (text_order())(
        a,
        c,
    ) by {
        if text_lt(a, b) && text_lt(b, c) {
            lemma_text_lt_transitive(a, b, c);
        }
    }
}

/// Comparing texts that share a prefix comes down to what follows it.
proof fn lemma_text_lt_skip(a: Seq<char>, b: Seq<char>, i: int)
    requires
        0 <= i <= a.len(),
        i <= b.len(),
        a.take(i) == b.take(i),
    ensures
        text_lt(a, b) == text_lt(a.skip(i), b.skip(i)),
    decreases i,
{
    if i > 0 {
        assert(a[0] == a.take(i)[0]);
        assert(b[0] == b.take(i)[0]);
        assert(a.drop_first().take(i - 1) =~= b.drop_first().take(i - 1)) by {
            assert forall|k: int| 0 <= k < i - 1 implies a.drop_first()[k] == b.drop_first()[k] by {
                assert(a.take(i)[k + 1] == b.take(i)[k + 1]);
                assert(a.take(i)[k + 1] == a[k + 1]);
                assert(b.take(i)[k + 1] == b[k + 1]);
                assert(a.drop_first()[k] == a[k + 1]);
                assert(b.drop_first()[k] == b[k + 1]);
            }
        }
        lemma_text_lt_skip(a.drop_first(), b.drop_first(), i - 1);
        assert(a.drop_first().skip(i - 1) =~= a.skip(i));
        assert(b.drop_first().skip(i - 1) =~= b.skip(i));
    } else {
        assert(a.skip(0) =~= a);
        assert(b.skip(0) =~= b);
    }
}

/// Whether `a` comes before `b` in the order of texts.
pub fn text_less(a: &str, b: &str) -> (r: bool)
    ensures
        r == text_lt(a@, b@),
{
    let va = crate::text::chars_of(a);
    let vb = crate::text::chars_of(b);
    let mut i: usize = 0;
    while i < va.len() && i < vb.len() && va[i] == vb[i]
        invariant
            i <= va.len(),
            i <= vb.len(),
            va@ == a@,
            vb@ == b@,
            va@.take(i as int) == vb@.take(i as int),
        decreases va.len() - i,
    {
        assert(va@.take(i + 1) =~= va@.take(i as int).push(va@[i as int]));
        assert(vb@.take(i + 1) =~= vb@.take(i as int).push(vb@[i as int]));
        i = i + 1;
    }
    proof {
        lemma_text_lt_skip(va@, vb@, i as int);
    }
    let ghost sa = va@.skip(i as int);
    let ghost sb = vb@.skip(i as int);
    if i == va.len() {
        assert(sa.len() == 0);
        i < vb.len()
    } else if i == vb.len() {
        false
    } else {
        let ca = va[i];
        let cb = vb[i];
        assert(ca != cb);
        assert(sa[0] == ca);
        assert(sb[0] == cb);
        ca < cb
    }
}

/// Whether `a` comes before `b` or equals it.
pub fn text_less_or_equal(a: &str, b: &str) -> (r: bool)
    ensures
        r == text_le(a@, b@),
{
    text_less(a, b) || crate::text::str_eq(a, b)
}

/// `le` is a total preorder: any two elements compare, and it is
/// transitive.
pub open spec fn total_preorder<A>(le: spec_fn(A, A) -> bool) -> bool {
    &&& forall|a: A, b: A| #[trigger] le(a, b) || le(b, a)
    &&& forall|a: A, b: A, c: A| #[trigger] le(a, b) && #[trigger] le(b, c) ==> le(a, c)
}

/// Every element is `le` every later one.
pub open spec fn sorted_by<A>(s: Seq<A>, le: spec_fn(A, A) -> bool) -> bool {
    forall|i: int, j: int| 0 <= i < j < s.len() ==> le(#[trigger] s[i], #[trigger] s[j])
}

/// `x` inserted into `s` after the last element that is `le` it: scanning
/// from the back, past every element that is not.
pub open spec fn insert_by<A>(s: Seq<A>, x: A, le: spec_fn(A, A) -> bool) -> Seq<A>
    decreases s.len(),
{
    if s.len() == 0 {
        seq![x]
    } else if le(s.last(), x) {
        s.push(x)
    } else {
        insert_by(s.drop_last(), x, le).push(s.last())
    }
}

/// The position at which `insert_by` puts `x`.
pub open spec fn insert_pos<A>(s: Seq<A>, x: A, le: spec_fn(A, A) -> bool) -> int
    decreases s.len(),
{
    if s.len() == 0 {
        0
    } else if le(s.last(), x) {
        s.len() as int
    } else {
        insert_pos(s.drop_last(), x, le)
    }
}

/// `s` sorted by `le` the way a stable sort does it: each element in turn
/// inserted after the elements before it that are `le` it. Equal elements
/// keep their order.
pub open spec fn stable_sort<A>(s: Seq<A>, le: spec_fn(A, A) -> bool) -> Seq<A>
    decreases s.len(),
{
    if s.len() == 0 {
        s
    } else {
        insert_by(stable_sort(s.drop_last(), le), s.last(), le)
    }
}

/// `insert_by` puts `x` at `insert_pos`.
pub proof fn lemma_insert_by_pos<A>(s: Seq<A>, x: A, le: spec_fn(A, A) -> bool)
    ensures
        0 <= insert_pos(s, x, le) <= s.len(),
        insert_by(s, x, le) == s.insert(insert_pos(s, x, le), x),
    decreases s.len(),
{
    if s.len() == 0 {
        assert(insert_by(s, x, le) =~= s.insert(0, x));
    } else if le(s.last(), x) {
        assert(insert_by(s, x, le) =~= s.insert(s.len() as int, x));
    } else {
        let t = s.drop_last();
        lemma_insert_by_pos(t, x, le);
        let p = insert_pos(t, x, le);
        assert(t.insert(p, x).push(s.last()) =~= s.insert(p, x));
    }
}

/// Inserting adds exactly the one element.
pub proof fn lemma_insert_by_multiset<A>(s: Seq<A>, x: A, le: spec_fn(A, A) -> bool)
    ensures
        insert_by(s, x, le).to_multiset() =~= s.to_multiset().insert(x),
    decreases s.len(),
{
    broadcast use vstd::multiset::group_multiset_axioms;

    if s.len() == 0 {
        assert(seq![x] =~= s.push(x));
    } else if le(s.last(), x) {
    } else {
        let t = s.drop_last();
        lemma_insert_by_multiset(t, x, le);
        assert(t.push(s.last()) =~= s);
    }
}

/// Inserting into a sorted sequence keeps it sorted.
pub proof fn lemma_insert_by_sorted<A>(s: Seq<A>, x: A, le: spec_fn(A, A) -> bool)
    requires
        total_preorder(le),
        sorted_by(s, le),
    ensures
        sorted_by(insert_by(s, x, le), le),
    decreases s.len(),
{
    let r = insert_by(s, x, le);
    if s.len() == 0 {
    } else if le(s.last(), x) {
        assert forall|i: int, j: int| 0 <= i < j < r.len() implies le(#[trigger] r[i], #[trigger] r[j]) by {
            if j == s.len() {
                if i < s.len() - 1 {
                    assert(le(s[i], s[s.len() - 1]));
                }
            }
        }
    } else {
        let t = s.drop_last();
        assert(le(x, s.last()));
        assert(sorted_by(t, le)) by {
            assert forall|i: int, j: int| 0 <= i < j < t.len() implies le(#[trigger] t[i], #[trigger] t[j]) by {
                assert(t[i] == s[i] && t[j] == s[j]);
            }
        }
        lemma_insert_by_sorted(t, x, le);
        lemma_insert_by_pos(t, x, le);
        let p = insert_pos(t, x, le);
        let u = insert_by(t, x, le);
        assert forall|i: int, j: int| 0 <= i < j < r.len() implies le(#[trigger] r[i], #[trigger] r[j]) by {
            if j == r.len() - 1 {
                assert(r[j] == s.last());
                if i < p {
                    assert(r[i] == s[i]);
                    assert(le(s[i], s[s.len() - 1]));
                } else if i == p {
                    assert(r[i] == x);
                } else {
                    assert(r[i] == s[i - 1]);
                    assert(le(s[i - 1], s[s.len() - 1]));
                }
            } else {
                assert(r[i] == u[i] && r[j] == u[j]);
            }
        }
    }
}

/// A stable sort is a rearrangement of its input.
pub proof fn lemma_stable_sort_permutation<A>(s: Seq<A>, le: spec_fn(A, A) -> bool)
    ensures
        stable_sort(s, le).to_multiset() =~= s.to_multiset(),
    decreases s.len(),
{
    if s.len() > 0 {
        let t = s.drop_last();
        lemma_stable_sort_permutation(t, le);
        lemma_insert_by_multiset(stable_sort(t, le), s.last(), le);
        assert(t.push(s.last()) =~= s);
    }
}

/// Sorting keeps exactly the elements there were.
pub proof fn lemma_stable_sort_contains<A>(s: Seq<A>, le: spec_fn(A, A) -> bool, x: A)
    ensures
        stable_sort(s, le).contains(x) <==> s.contains(x),
{
    lemma_stable_sort_permutation(s, le);
    vstd::seq_lib::to_multiset_contains(s, x);
    vstd::seq_lib::to_multiset_contains(stable_sort(s, le), x);
}

/// A stable sort by a total preorder is sorted.
pub proof fn lemma_stable_sort_sorted<A>(s: Seq<A>, le: spec_fn(A, A) -> bool)
    requires
        total_preorder(le),
    ensures
        sorted_by(stable_sort(s, le), le),
    decreases s.len(),
{
    if s.len() > 0 {
        lemma_stable_sort_sorted(s.drop_last(), le);
        lemma_insert_by_sorted(stable_sort(s.drop_last(), le), s.last(), le);
    }
}

/// A stable sort has as many elements as its input.
pub proof fn lemma_stable_sort_len<A>(s: Seq<A>, le: spec_fn(A, A) -> bool)
    ensures
        stable_sort(s, le).len() == s.len(),
    decreases s.len(),
{
    if s.len() > 0 {
        lemma_stable_sort_len(s.drop_last(), le);
        lemma_insert_by_pos(stable_sort(s.drop_last(), le), s.last(), le);
    }
}

/// Sorting commutes with a map that preserves the order: inserting into
/// the mapped sequence puts the mapped element at the same place.
pub proof fn lemma_insert_by_map<A, B>(
    s: Seq<A>,
    x: A,
    le: spec_fn(A, A) -> bool,
    f: spec_fn(A) -> B,
    le2: spec_fn(B, B) -> bool,
)
    requires
        forall|a: A, b: A| #[trigger] le(a, b) == le2(f(a), f(b)),
    ensures
        insert_by(s, x, le).map_values(f) == insert_by(s.map_values(f), f(x), le2),
    decreases s.len(),
{
    if s.len() == 0 {
        assert(seq![x].map_values(f) =~= seq![f(x)]);
    } else {
        let t = s.drop_last();
        assert(s.map_values(f).drop_last() =~= t.map_values(f));
        assert(s.map_values(f).last() == f(s.last()));
        assert(le(s.last(), x) == le2(f(s.last()), f(x)));
        if le(s.last(), x) {
            assert(s.push(x).map_values(f) =~= s.map_values(f).push(f(x)));
        } else {
            lemma_insert_by_map(t, x, le, f, le2);
            assert(insert_by(t, x, le).push(s.last()).map_values(f) =~= insert_by(t, x, le).map_values(
                f,
            ).push(f(s.last())));
        }
    }
}

/// A stable sort commutes with a map that preserves the order.
pub proof fn lemma_stable_sort_map<A, B>(
    s: Seq<A>,
    le: spec_fn(A, A) -> bool,
    f: spec_fn(A) -> B,
    le2: spec_fn(B, B) -> bool,
)
    requires
        forall|a: A, b: A| #[trigger] le(a, b) == le2(f(a), f(b)),
    ensures
        stable_sort(s, le).map_values(f) == stable_sort(s.map_values(f), le2),
    decreases s.len(),
{
    if s.len() > 0 {
        let t = s.drop_last();
        lemma_stable_sort_map(t, le, f, le2);
        assert(s.map_values(f).drop_last() =~= t.map_values(f));
        assert(s.map_values(f).last() == f(s.last()));
        lemma_insert_by_map(stable_sort(t, le), s.last(), le, f, le2);
    } else {
        assert(s.map_values(f) =~= Seq::<B>::empty());
    }
}

/// `v` sorted by `le`, stably: `le_exec` answers `le` for each pair it is
/// asked about.
pub(crate) fn stable_sort_vec<A, F: Fn(&A, &A) -> bool>(
    v: Vec<A>,
    le_exec: F,
    Ghost(le): Ghost<spec_fn(A, A) -> bool>,
) -> (r: Vec<A>)
    requires
        forall|a: &A, b: &A| #[trigger] le_exec.requires((a, b)),
        forall|a: &A, b: &A, res: bool| le_exec.ensures((a, b), res) ==> res == le(*a, *b),
    ensures
        r@ == stable_sort(v@, le),
{
    let ghost all = v@;
    let mut r: Vec<A> = Vec::new();
    for x in it: v
        invariant
            all == it.seq(),
            r@ == stable_sort(all.take(it.index() as int), le),
            forall|a: &A, b: &A| #[trigger] le_exec.requires((a, b)),
            forall|a: &A, b: &A, res: bool| le_exec.ensures((a, b), res) ==> res == le(*a, *b),
    {
        let ghost k = it.index() as int;
        let ghost sv = r@;
        assert(all.take(k + 1).drop_last() =~= all.take(k));
        assert(all.take(k + 1).last() == x);
        let mut p: usize = r.len();
        assert(sv.take(p as int) =~= sv);
        while p > 0 && !le_exec(&r[p - 1], &x)
            invariant
                p <= r.len(),
                sv == r@,
                insert_pos(sv, x, le) == insert_pos(sv.take(p as int), x, le),
                forall|a: &A, b: &A| #[trigger] le_exec.requires((a, b)),
                forall|a: &A, b: &A, res: bool| le_exec.ensures((a, b), res) ==> res == le(*a, *b),
            decreases p,
        {
            let ghost t = sv.take(p as int);
            assert(t.drop_last() =~= sv.take(p - 1));
            p = p - 1;
        }
        proof {
            lemma_insert_by_pos(sv, x, le);
            if p > 0 {
                assert(sv.take(p as int).last() == r@[p - 1]);
            }
        }
        r.insert(p, x);
    }
    assert(all.take(all.len() as int) =~= all);
    r
}

/// Texts sorted in the order of texts.
pub fn sort_texts(v: Vec<String>) -> (r: Vec<String>)
    ensures
        crate::model::root_policy::string_views(r@) == stable_sort(
            crate::model::root_policy::string_views(v@),
            text_order(),
        ),
{
    let ghost all = crate::model::root_policy::string_views(v@);
    let mut r: Vec<String> = Vec::new();
    for x in it: v
        invariant
            all == crate::model::root_policy::string_views(it.seq()),
            crate::model::root_policy::string_views(r@) == stable_sort(
                all.take(it.index() as int),
                text_order(),
            ),
    {
        let ghost k = it.index() as int;
        let ghost sv = crate::model::root_policy::string_views(r@);
        assert(all.take(k + 1).drop_last() =~= all.take(k));
        assert(all.take(k + 1).last() == x@);
        let mut p: usize = r.len();
        assert(sv.take(p as int) =~= sv);
        while p > 0 && !text_less_or_equal(r[p - 1].as_str(), x.as_str())
            invariant
                p <= r.len(),
                sv == crate::model::root_policy::string_views(r@),
                insert_pos(sv, x@, text_order()) == insert_pos(
                    sv.take(p as int),
                    x@,
                    text_order(),
                ),
            decreases p,
        {
            let ghost t = sv.take(p as int);
            assert(t.drop_last() =~= sv.take(p - 1));
            assert(t.last() == r@[p - 1]@);
            p = p - 1;
        }
        proof {
            lemma_insert_by_pos(sv, x@, text_order());
            if p > 0 {
                let t = sv.take(p as int);
                assert(t.last() == r@[p - 1]@);
            }
        }
        let ghost xv = x@;
        r.insert(p, x);
        assert(crate::model::root_policy::string_views(r@) =~= sv.insert(p as int, xv));
    }
    assert(all.take(all.len() as int) =~= all);
    r
}

} // verus!
