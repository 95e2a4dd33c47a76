//! The listing of intentional resources (roots), grouped by resource type.
use vstd::prelude::*;

use crate::cli::overview::{entry_tag, is_observed_missing, observed_missing, resource_with_id};
use crate::model::analysis::copy_resource;
use crate::model::resource::{Resource, ResourceType};
use crate::model::root::{Root, RootSource};
use crate::model::store::Store;
use crate::seqs::lemma_filter_step;

verus! {

/// A root as the listing shows it.
#[derive(Debug, Clone)]
pub struct ListedRoot {
    pub resource: Resource,
    pub source: RootSource,
    pub reason: Option<String>,
    pub missing: bool,
}

/// The roots listing: the shown roots grouped by type, the missing ones,
/// and how many roots are hidden, shown and missing.
#[derive(Debug, Clone)]
pub struct RootsListing {
    pub hidden_count: usize,
    pub shown_count: usize,
    pub missing_count: usize,
    pub packages: Vec<ListedRoot>,
    pub flatpaks: Vec<ListedRoot>,
    pub services: Vec<ListedRoot>,
    pub other: Vec<ListedRoot>,
    pub missing: Vec<ListedRoot>,
}

/// A root is shown when hidden roots are included or it is not hidden.
pub open spec fn shown(root: Root, include_hidden: bool) -> bool {
    include_hidden || root.source != RootSource::Ignored
}

/// The shown roots of the first `k` roots whose resource exists, in root
/// order.
pub open spec fn listed_roots(store: Store, include_hidden: bool, k: int) -> Seq<ListedRoot>
    decreases k,
{
    if k <= 0 {
        Seq::<ListedRoot>::empty()
    } else {
        let rest = listed_roots(store, include_hidden, k - 1);
        let root = store.roots@[k - 1];
        if shown(root, include_hidden) {
            match resource_with_id(store.resources@, root.resource_id@) {
                Some(r) => rest.push(
                    ListedRoot {
                        resource: r,
                        source: root.source,
                        reason: root.reason,
                        missing: observed_missing(store.observations@, root.resource_id@),
                    },
                ),
                None => rest,
            }
        } else {
            rest
        }
    }
}

/// The roots of one resource type.
pub open spec fn roots_of_type(roots: Seq<ListedRoot>, t: ResourceType) -> Seq<ListedRoot> {
    roots.filter(|r: ListedRoot| r.resource.resource_type == t)
}

/// The roots of the types without a group of their own.
pub open spec fn other_roots(roots: Seq<ListedRoot>) -> Seq<ListedRoot> {
    roots.filter(
        |r: ListedRoot|
            r.resource.resource_type != ResourceType::Package && r.resource.resource_type
                != ResourceType::Flatpak && r.resource.resource_type != ResourceType::Service,
    )
}

/// `l` is the listing of the roots of `store`.
pub open spec fn listing_of(l: RootsListing, store: Store, include_hidden: bool) -> bool {
    let all = listed_roots(store, include_hidden, store.roots@.len() as int);
    &&& l.hidden_count == store.roots@.filter(|r: Root| r.source == RootSource::Ignored).len()
    &&& l.shown_count == store.roots@.filter(|r: Root| shown(r, include_hidden)).len()
    &&& l.missing_count == store.roots@.filter(
        |r: Root| observed_missing(store.observations@, r.resource_id@),
    ).len()
    &&& l.packages@ == roots_of_type(all, ResourceType::Package)
    &&& l.flatpaks@ == roots_of_type(all, ResourceType::Flatpak)
    &&& l.services@ == roots_of_type(all, ResourceType::Service)
    &&& l.other@ == other_roots(all)
    &&& l.missing@ == all.filter(|r: ListedRoot| r.missing)
}

/// Format a root's tags, e.g. `[user, missing]` or `[detected]`.
pub fn root_tag(source: &RootSource, missing: bool) -> (s: String)
    ensures
        s@ == entry_tag(*source, missing),
{
    let mut s = String::from_str("[");
    s.append(source.as_str());
    if missing {
        s.append(", missing]");
    } else {
        s.append("]");
    }
    s
}

/// A copy of a listed root.
fn copy_listed(r: &ListedRoot) -> (c: ListedRoot)
    ensures
        c == *r,
{
    ListedRoot {
        resource: copy_resource(&r.resource),
        source: r.source,
        reason: match &r.reason {
            Some(t) => Some(t.clone()),
            None => None,
        },
        missing: r.missing,
    }
}

/// The shown roots whose resource exists.
fn shown_roots(store: &Store, include_hidden: bool) -> (r: Vec<ListedRoot>)
    ensures
        r@ == listed_roots(*store, include_hidden, store.roots@.len() as int),
{
    let ghost st = *store;
    let mut out: Vec<ListedRoot> = Vec::new();
    let mut i: usize = 0;
    while i < store.roots.len()
        invariant
            i <= store.roots.len(),
            st == *store,
            out@ == listed_roots(st, include_hidden, i as int),
        decreases store.roots.len() - i,
    {
        let root = &store.roots[i];
        if include_hidden || root.source != RootSource::Ignored {
            match crate::cli::overview::find_resource_by_id(&store.resources, root.resource_id.as_str()) {
                Some(resource) => {
                    let missing = is_observed_missing(&store.observations, root.resource_id.as_str());
                    out.push(
                        ListedRoot {
                            resource: copy_resource(resource),
                            source: root.source,
                            reason: match &root.reason {
                                Some(t) => Some(t.clone()),
                                None => None,
                            },
                            missing,
                        },
                    );
                },
                None => {},
            }
        }
        i = i + 1;
    }
    out
}

/// The listed roots that satisfy `pred`, given as a test on each root.
fn roots_where(all: &Vec<ListedRoot>, group: u8) -> (r: Vec<ListedRoot>)
    requires
        group < 5,
    ensures
        group == 0 ==> r@ == roots_of_type(all@, ResourceType::Package),
        group == 1 ==> r@ == roots_of_type(all@, ResourceType::Flatpak),
        group == 2 ==> r@ == roots_of_type(all@, ResourceType::Service),
        group == 3 ==> r@ == other_roots(all@),
        group == 4 ==> r@ == all@.filter(|x: ListedRoot| x.missing),
{
    let ghost pred = if group == 0 {
        |x: ListedRoot| x.resource.resource_type == ResourceType::Package
    } else if group == 1 {
        |x: ListedRoot| x.resource.resource_type == ResourceType::Flatpak
    } else if group == 2 {
        |x: ListedRoot| x.resource.resource_type == ResourceType::Service
    } else if group == 3 {
        |x: ListedRoot|
            x.resource.resource_type != ResourceType::Package && x.resource.resource_type
                != ResourceType::Flatpak && x.resource.resource_type != ResourceType::Service
    } else {
        |x: ListedRoot| x.missing
    };
    let mut out: Vec<ListedRoot> = Vec::new();
    let mut i: usize = 0;
    while i < all.len()
        invariant
            i <= all.len(),
            group < 5,
            pred == if group == 0 {
                |x: ListedRoot| x.resource.resource_type == ResourceType::Package
            } else if group == 1 {
                |x: ListedRoot| x.resource.resource_type == ResourceType::Flatpak
            } else if group == 2 {
                |x: ListedRoot| x.resource.resource_type == ResourceType::Service
            } else if group == 3 {
                |x: ListedRoot|
                    x.resource.resource_type != ResourceType::Package && x.resource.resource_type
                        != ResourceType::Flatpak && x.resource.resource_type
                        != ResourceType::Service
            } else {
                |x: ListedRoot| x.missing
            },
            out@ == all@.take(i as int).filter(pred),
        decreases all.len() - i,
    {
        proof {
            lemma_filter_step(all@, pred, i as int);
        }
        let t = all[i].resource.resource_type;
        let keep = if group == 0 {
            t == ResourceType::Package
        } else if group == 1 {
            t == ResourceType::Flatpak
        } else if group == 2 {
            t == ResourceType::Service
        } else if group == 3 {
            t != ResourceType::Package && t != ResourceType::Flatpak && t != ResourceType::Service
        } else {
            all[i].missing
        };
        if keep {
            out.push(copy_listed(&all[i]));
        }
        i = i + 1;
    }
    assert(all@.take(all.len() as int) =~= all@);
    out
}

/// Count the roots that are hidden (`which == 0`), shown (`1`) or missing
/// (`2`).
fn count_roots(store: &Store, include_hidden: bool, which: u8) -> (n: usize)
    requires
        which < 3,
    ensures
        which == 0 ==> n == store.roots@.filter(|r: Root| r.source == RootSource::Ignored).len(),
        which == 1 ==> n == store.roots@.filter(|r: Root| shown(r, include_hidden)).len(),
        which == 2 ==> n == store.roots@.filter(
            |r: Root| observed_missing(store.observations@, r.resource_id@),
        ).len(),
{
    let ghost obs = store.observations@;
    let ghost pred = if which == 0 {
        |r: Root| r.source == RootSource::Ignored
    } else if which == 1 {
        |r: Root| shown(r, include_hidden)
    } else {
        |r: Root| observed_missing(obs, r.resource_id@)
    };
    let mut n: usize = 0;
    let mut i: usize = 0;
    while i < store.roots.len()
        invariant
            i <= store.roots.len(),
            which < 3,
            obs == store.observations@,
            pred == if which == 0 {
                |r: Root| r.source == RootSource::Ignored
            } else if which == 1 {
                |r: Root| shown(r, include_hidden)
            } else {
                |r: Root| observed_missing(obs, r.resource_id@)
            },
            n == store.roots@.take(i as int).filter(pred).len(),
            n <= i,
        decreases store.roots.len() - i,
    {
        proof {
            lemma_filter_step(store.roots@, pred, i as int);
        }
        let root = &store.roots[i];
        let counted = if which == 0 {
            root.source == RootSource::Ignored
        } else if which == 1 {
            include_hidden || root.source != RootSource::Ignored
        } else {
            is_observed_missing(&store.observations, root.resource_id.as_str())
        };
        if counted {
            n = n + 1;
        }
        i = i + 1;
    }
    assert(store.roots@.take(store.roots.len() as int) =~= store.roots@);
    n
}

/// The listing of the intentional resources (roots): hidden roots only
/// when `include_hidden`, grouped by resource type, with the missing ones
/// gathered too.
pub fn list_roots(store: &Store, include_hidden: bool) -> (l: RootsListing)
    ensures
        listing_of(l, *store, include_hidden),
{
    let all = shown_roots(store, include_hidden);
    RootsListing {
        hidden_count: count_roots(store, include_hidden, 0),
        shown_count: count_roots(store, include_hidden, 1),
        missing_count: count_roots(store, include_hidden, 2),
        packages: roots_where(&all, 0),
        flatpaks: roots_where(&all, 1),
        services: roots_where(&all, 2),
        other: roots_where(&all, 3),
        missing: roots_where(&all, 4),
    }
}


// ---------------------------------------------------------------------------
// Declaring, removing and hiding roots
// ---------------------------------------------------------------------------

/// What `root add` does to a resource, given the root recorded for it.
#[derive(Debug, Clone, Copy, PartialEq, Eq, Structural)]
pub enum RootAddStep {
    /// The resource already is an explicit root: nothing changes.
    AlreadyExplicit,
    /// The recorded root, established another way, becomes an explicit one.
    Promote(RootSource),
    /// A new explicit root is recorded.
    Create,
}

/// An explicit user declaration always wins over automatic classification:
/// a root recorded another way is promoted to an explicit one, an explicit
/// root is left as it is, and a resource without a root gets an explicit one.
pub fn root_add_step(existing: Option<RootSource>) -> (s: RootAddStep)
    ensures
        s == RootAddStep::AlreadyExplicit <==> existing == Some(RootSource::User),
        s is Create <==> existing is None,
        s matches RootAddStep::Promote(from) ==> existing == Some(from) && from
            != RootSource::User,
        existing matches Some(from) ==> (from != RootSource::User ==> s == RootAddStep::Promote(
            from,
        )),
{
    match existing {
        Some(RootSource::User) => RootAddStep::AlreadyExplicit,
        Some(from) => RootAddStep::Promote(from),
        None => RootAddStep::Create,
    }
}

/// The history entry of a `root add` that changed something: the promotion
/// of a root established another way, or the creation of an explicit root.
pub fn root_add_detail(name: &str, promoted_from: Option<RootSource>) -> (s: String)
    ensures
        s@ == match promoted_from {
            Some(from) => "promoted '"@ + name@ + "' from source="@ + from.text()
                + " to explicit user root"@,
            None => "marked '"@ + name@ + "' as intentional root (source: "@
                + RootSource::User.text() + ")"@,
        },
{
    match promoted_from {
        Some(from) => {
            let mut s = String::from_str("promoted '");
            s.append(name);
            s.append("' from source=");
            s.append(from.as_str());
            s.append(" to explicit user root");
            s
        },
        None => {
            let mut s = String::from_str("marked '");
            s.append(name);
            s.append("' as intentional root (source: ");
            s.append(RootSource::User.as_str());
            s.append(")");
            s
        },
    }
}

/// The history entry of a `root remove`: the root is gone, the resource
/// stays.
pub fn root_remove_detail(name: &str, source: RootSource) -> (s: String)
    ensures
        s@ == "removed '"@ + name@ + "' from intentional roots (source was "@ + source.text()
            + ", resource preserved)"@,
{
    let mut s = String::from_str("removed '");
    s.append(name);
    s.append("' from intentional roots (source was ");
    s.append(source.as_str());
    s.append(", resource preserved)");
    s
}

/// A removed root may come back with a later scan only when the scan had
/// detected it.
pub fn may_be_redetected(source: RootSource) -> (b: bool)
    ensures
        b <==> source == RootSource::Detected,
{
    match source {
        RootSource::Detected => true,
        _ => false,
    }
}

/// `root hide` has nothing to do for a resource whose root is already hidden.
pub fn already_hidden(existing: Option<RootSource>) -> (b: bool)
    ensures
        b <==> existing == Some(RootSource::Ignored),
{
    match existing {
        Some(RootSource::Ignored) => true,
        _ => false,
    }
}

} // verus!
