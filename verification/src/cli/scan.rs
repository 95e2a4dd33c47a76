//! What a scan reports of the discovered packages: how many came from each
//! origin repository.
use vstd::prelude::*;

use crate::discovery::packages::PackageRecord;
use crate::model::root_policy::string_views;
use crate::order::{lemma_stable_sort_map, stable_sort, stable_sort_vec};
use crate::seqs::{distinct, lemma_distinct_contains, lemma_distinct_unique};
use crate::text::str_eq;

verus! {

broadcast use vstd::seq_lib::group_seq_properties;

/// The repository a package came from: the one it was installed from when
/// known, else its repository.
pub open spec fn origin_of(p: PackageRecord) -> Seq<char> {
    match p.from_repo {
        Some(r) => r@,
        None => p.repository@,
    }
}

/// The origins of the packages, in order.
pub open spec fn origins(ps: Seq<PackageRecord>) -> Seq<Seq<char>> {
    ps.map_values(|p: PackageRecord| origin_of(p))
}

/// Equality with `o`, as a predicate.
pub open spec fn equal_to(o: Seq<char>) -> spec_fn(Seq<char>) -> bool {
    |x: Seq<char>| x == o
}

/// How often `o` occurs in `os`.
pub open spec fn occurrences(os: Seq<Seq<char>>, o: Seq<char>) -> nat {
    os.filter(equal_to(o)).len()
}

/// Each distinct origin, in order of first appearance, with its number of
/// packages.
pub open spec fn origin_counts(ps: Seq<PackageRecord>) -> Seq<(Seq<char>, nat)> {
    distinct(origins(ps)).map_values(|o: Seq<char>| (o, occurrences(origins(ps), o)))
}

/// The order of the report: more packages first.
pub open spec fn count_order() -> spec_fn((Seq<char>, nat), (Seq<char>, nat)) -> bool {
    |a: (Seq<char>, nat), b: (Seq<char>, nat)| a.1 >= b.1
}

/// The view of an origin and its count.
pub open spec fn count_view(e: (String, usize)) -> (Seq<char>, nat) {
    (e.0@, e.1 as nat)
}

/// The order of the report on counted origins.
pub open spec fn count_entry_order() -> spec_fn((String, usize), (String, usize)) -> bool {
    |a: (String, usize), b: (String, usize)| a.1 >= b.1
}

/// Whether `a` has at least as many packages as `b`.
fn count_ge(a: &(String, usize), b: &(String, usize)) -> (r: bool)
    ensures
        r == (count_entry_order())(*a, *b),
{
    a.1 >= b.1
}

/// The origin of a package.
fn origin_exec(p: &PackageRecord) -> (r: String)
    ensures
        r@ == origin_of(*p),
{
    match &p.from_repo {
        Some(r) => r.clone(),
        None => p.repository.clone(),
    }
}

/// How many packages came from each origin repository, the largest first;
/// origins with as many packages keep the order of their first appearance.
pub fn packages_by_origin(packages: &Vec<PackageRecord>) -> (r: Vec<(String, usize)>)
    ensures
        r@.map_values(|e: (String, usize)| count_view(e)) == stable_sort(
            origin_counts(packages@),
            count_order(),
        ),
{
    let ghost ps = packages@;
    let mut names: Vec<String> = Vec::new();
    let mut counts: Vec<usize> = Vec::new();
    let mut i: usize = 0;
    while i < packages.len()
        invariant
            i <= packages.len(),
            ps == packages@,
            names@.len() == counts@.len(),
            string_views(names@) == distinct(origins(ps.take(i as int))),
            forall|j: int|
                0 <= j < counts@.len() ==> #[trigger] counts@[j] == occurrences(
                    origins(ps.take(i as int)),
                    names@[j]@,
                ),
            forall|j: int| 0 <= j < counts@.len() ==> #[trigger] counts@[j] <= i,
        decreases packages.len() - i,
    {
        let o = origin_exec(&packages[i]);
        let ghost before = origins(ps.take(i as int));
        let ghost after = origins(ps.take(i + 1));
        assert(ps.take(i + 1) =~= ps.take(i as int).push(ps[i as int]));
        assert(after =~= before.push(o@));
        assert(after.drop_last() =~= before);
        let ghost old_counts = counts@;
        let ghost old_names = names@;
        let mut j: usize = 0;
        while j < names.len() && !str_eq(names[j].as_str(), o.as_str())
            invariant
                j <= names.len(),
                forall|k: int| 0 <= k < j ==> names@[k]@ != o@,
            decreases names.len() - j,
        {
            j = j + 1;
        }
        assert forall|k: int| 0 <= k < counts@.len() implies occurrences(after, #[trigger] names@[k]@)
            == occurrences(before, names@[k]@) + if names@[k]@ == o@ {
            1nat
        } else {
            0nat
        } by {
            let n = names@[k]@;
            before.lemma_filter_push(o@, equal_to(n));
        }
        if j < names.len() {
            assert(string_views(names@)[j as int] == o@);
            proof {
                lemma_distinct_unique(before);
                assert forall|k: int| 0 <= k < names@.len() && k != j implies names@[k]@ != o@ by {
                    assert(string_views(names@)[k] == names@[k]@);
                }
            }
            let c = counts[j];
            counts.set(j, c + 1);
            assert forall|k: int| 0 <= k < counts@.len() implies #[trigger] counts@[k]
                == occurrences(after, names@[k]@) by {
                assert(old_counts[k] == occurrences(before, old_names[k]@));
            }
        } else {
            assert(!string_views(names@).contains(o@)) by {
                assert forall|k: int| 0 <= k < string_views(names@).len() implies string_views(
                    names@,
                )[k] != o@ by {
                    assert(names@[k]@ != o@);
                }
            }
            let ghost old_views = string_views(names@);
            let ghost ov = o@;
            names.push(o);
            counts.push(1);
            assert(string_views(names@) =~= old_views.push(ov));
            assert(occurrences(before, ov) == 0) by {
                let f = before.filter(equal_to(ov));
                if f.len() > 0 {
                    before.lemma_filter_pred(equal_to(ov), 0);
                    assert(f.contains(f[0]));
                    before.lemma_filter_contains_rev(equal_to(ov), f[0]);
                    lemma_distinct_contains(before, ov);
                }
            }
            proof {
                before.lemma_filter_push(ov, equal_to(ov));
            }
            assert forall|k: int| 0 <= k < counts@.len() implies #[trigger] counts@[k]
                == occurrences(after, names@[k]@) by {
                if k < old_counts.len() {
                    assert(old_names[k]@ != ov);
                    assert(old_counts[k] == occurrences(before, old_names[k]@));
                    assert(names@[k] == old_names[k]);
                }
            }
        }
        i = i + 1;
    }
    assert(ps.take(packages.len() as int) =~= ps);
    let mut pairs: Vec<(String, usize)> = Vec::new();
    let mut k: usize = 0;
    let ghost os = origins(ps);
    while k < names.len()
        invariant
            k <= names.len(),
            names@.len() == counts@.len(),
            os == origins(ps),
            string_views(names@) == distinct(os),
            forall|j: int| 0 <= j < counts@.len() ==> #[trigger] counts@[j] == occurrences(os, names@[j]@),
            pairs@.map_values(|e: (String, usize)| count_view(e)) == origin_counts(ps).take(k as int),
        decreases names.len() - k,
    {
        let ghost before = pairs@.map_values(|e: (String, usize)| count_view(e));
        let n = names[k].clone();
        pairs.push((n, counts[k]));
        assert(string_views(names@)[k as int] == names@[k as int]@);
        assert(pairs@.map_values(|e: (String, usize)| count_view(e)) =~= before.push(
            (names@[k as int]@, counts@[k as int] as nat),
        ));
        assert(origin_counts(ps).take(k + 1) =~= origin_counts(ps).take(k as int).push(
            origin_counts(ps)[k as int],
        ));
        k = k + 1;
    }
    assert(origin_counts(ps).take(names.len() as int) =~= origin_counts(ps));
    let ghost unsorted = pairs@;
    let sorted = stable_sort_vec(pairs, count_ge, Ghost(count_entry_order()));
    proof {
        lemma_stable_sort_map(
            unsorted,
            count_entry_order(),
            |e: (String, usize)| count_view(e),
            count_order(),
        );
    }
    sorted
}

} // verus!
