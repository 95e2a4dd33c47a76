//! Assembling a Flatpak snapshot from what the Flatpak backend discovered.
use vstd::prelude::*;

use crate::discovery::flatpaks::{FlatpakRecord, FlatpakRemote, FlatpakSnapshot};
use crate::order::{
    lemma_stable_sort_permutation, lemma_stable_sort_sorted, lemma_text_lt_transitive,
    lemma_text_trichotomy, sorted_by, stable_sort, stable_sort_vec, text_le, text_less,
    text_less_or_equal, text_lt, total_preorder,
};
use crate::stamp::now_rfc3339;
use crate::text::str_eq;

verus! {

/// The order of Flatpak refs in a snapshot: by id, then by branch.
pub open spec fn ref_order() -> spec_fn(FlatpakRecord, FlatpakRecord) -> bool {
    |a: FlatpakRecord, b: FlatpakRecord|
        text_lt(a.id@, b.id@) || (a.id@ == b.id@ && text_le(a.branch@, b.branch@))
}

/// The order of refs is a total preorder.
pub proof fn lemma_ref_order_total_preorder()
    ensures
        total_preorder(ref_order()),
{
    assert forall|a: FlatpakRecord, b: FlatpakRecord|
        #[trigger] (ref_order())(a, b) || (ref_order())(b, a) by {
        lemma_text_trichotomy(a.id@, b.id@);
        lemma_text_trichotomy(a.branch@, b.branch@);
    }
    assert forall|a: FlatpakRecord, b: FlatpakRecord, c: FlatpakRecord|
        #[trigger] (ref_order())(a, b) && #[trigger] (ref_order())(b, c) implies (ref_order())(
        a,
        c,
    ) by {
        if text_lt(a.id@, b.id@) && text_lt(b.id@, c.id@) {
            lemma_text_lt_transitive(a.id@, b.id@, c.id@);
        }
        if text_lt(a.branch@, b.branch@) && text_lt(b.branch@, c.branch@) {
            lemma_text_lt_transitive(a.branch@, b.branch@, c.branch@);
        }
    }
}

/// Whether `a` comes before `b` or with it in the order of refs.
fn ref_le(a: &FlatpakRecord, b: &FlatpakRecord) -> (r: bool)
    ensures
        r == (ref_order())(*a, *b),
{
    text_less(a.id.as_str(), b.id.as_str()) || (str_eq(a.id.as_str(), b.id.as_str())
        && text_less_or_equal(a.branch.as_str(), b.branch.as_str()))
}

/// Refs sorted by id, then branch; refs that compare equal keep their order.
pub fn sort_refs(v: Vec<FlatpakRecord>) -> (r: Vec<FlatpakRecord>)
    ensures
        r@ == stable_sort(v@, ref_order()),
{
    stable_sort_vec(v, ref_le, Ghost(ref_order()))
}

/// Build a full snapshot from the discovered apps, runtimes and remotes,
/// taken now. Apps and runtimes are sorted by id then branch for
/// deterministic output; remotes keep their order.
pub fn discover_snapshot(
    apps: Vec<FlatpakRecord>,
    runtimes: Vec<FlatpakRecord>,
    remotes: Vec<FlatpakRemote>,
) -> (s: FlatpakSnapshot)
    ensures
        s.apps@ == stable_sort(apps@, ref_order()),
        s.runtimes@ == stable_sort(runtimes@, ref_order()),
        s.remotes@ == remotes@,
        s.snapshot_time@.len() > 0,
{
    FlatpakSnapshot {
        apps: sort_refs(apps),
        runtimes: sort_refs(runtimes),
        remotes,
        snapshot_time: now_rfc3339(),
    }
}

/// The refs of a snapshot come out in order of id, then branch, and they
/// are exactly the refs discovered, none lost or added.
pub proof fn law_snapshot_refs_sorted(refs: Seq<FlatpakRecord>)
    ensures
        sorted_by(stable_sort(refs, ref_order()), ref_order()),
        stable_sort(refs, ref_order()).to_multiset() == refs.to_multiset(),
{
    lemma_ref_order_total_preorder();
    lemma_stable_sort_sorted(refs, ref_order());
    lemma_stable_sort_permutation(refs, ref_order());
}

} // verus!
