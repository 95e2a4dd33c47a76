//! What `show` tells about one resource: its observation, root, domains and
//! relationships.
use vstd::prelude::*;

use crate::model::analysis::copy_resource;
use crate::model::domain::Domain;
use crate::model::observation::{
    metadata_text, observed_text, same_observation, same_observation_opt, Observation,
};
use crate::model::relationship::{Relationship, RelationshipType};
use crate::model::resource::{label_of, Resource, ResourceType};
use crate::model::root::Root;
use crate::model::root_policy::{opt_view, string_views};
use crate::model::store::{root_of, Store};
use crate::seqs::{first_match, lemma_filter_step, lemma_first_match_at, lemma_first_match_none};
use crate::text::str_eq;

verus! {

/// Maximum names shown in relationship lists before truncating.
pub const LIST_LIMIT: usize = 10;

/// Everything `show` needs about one resource.
#[derive(Debug)]
pub struct ResourceDetail {
    pub resource: Resource,
    pub observation: Option<Observation>,
    pub root: Option<Root>,
    pub domains: Vec<(Domain, RelationshipType)>,
    pub dependencies: Vec<String>,
    pub dependents: Vec<String>,
    pub provenance: Vec<String>,
    pub uses: Vec<String>,
    /// Number of packages coming from this repository (repositories only).
    pub package_count: Option<usize>,
}

/// A copy of an optional text.
fn copy_opt_text(s: &Option<String>) -> (r: Option<String>)
    ensures
        r == *s,
{
    match s {
        Some(t) => Some(t.clone()),
        None => None,
    }
}

/// A copy of an observation.
pub fn copy_observation(o: &Observation) -> (c: Observation)
    ensures
        same_observation(c, *o),
{
    Observation {
        resource_id: o.resource_id.clone(),
        observed_at: o.observed_at.clone(),
        installed: o.installed,
        version: copy_opt_text(&o.version),
        active: o.active,
        enabled: o.enabled,
        failed: o.failed,
        metadata: match &o.metadata {
            Some(m) => Some(m.copy()),
            None => None,
        },
    }
}

/// A copy of a root.
pub fn copy_root(r: &Root) -> (c: Root)
    ensures
        c == *r,
{
    Root {
        resource_id: r.resource_id.clone(),
        source: r.source,
        reason: copy_opt_text(&r.reason),
        created_at: r.created_at.clone(),
        updated_at: r.updated_at.clone(),
    }
}

/// A copy of a domain.
pub fn copy_domain(d: &Domain) -> (c: Domain)
    ensures
        c == *d,
{
    Domain {
        id: d.id.clone(),
        name: d.name.clone(),
        description: copy_opt_text(&d.description),
        created_at: d.created_at.clone(),
        updated_at: d.updated_at.clone(),
    }
}

/// The observation recorded for a resource: the first one for it.
pub open spec fn observation_of(observations: Seq<Observation>, id: Seq<char>) -> Option<Observation> {
    first_match(observations, |o: Observation| o.resource_id@ == id)
}

/// The label of the resource with id `id`, if there is one: its display
/// name, else its native id.
pub open spec fn label_with_id(resources: Seq<Resource>, id: Seq<char>) -> Option<Seq<char>> {
    match first_match(resources, |r: Resource| r.id@ == id) {
        Some(r) => Some(label_of(r.display_name, r.native_id)),
        None => None,
    }
}

/// The labels of the resources at the other end of the relationships of
/// kind `kind` that touch `id` (as source when `outgoing`, else as target),
/// in table order; a relationship whose other end is not a resource adds
/// nothing.
pub open spec fn related_labels(
    rels: Seq<Relationship>,
    resources: Seq<Resource>,
    id: Seq<char>,
    kind: RelationshipType,
    outgoing: bool,
) -> Seq<Seq<char>>
    decreases rels.len(),
{
    if rels.len() == 0 {
        Seq::<Seq<char>>::empty()
    } else {
        let rest = related_labels(rels.drop_last(), resources, id, kind, outgoing);
        let r = rels.last();
        let here = if outgoing {
            r.source_id@
        } else {
            r.target_id@
        };
        let there = if outgoing {
            r.target_id@
        } else {
            r.source_id@
        };
        if here == id && r.relationship_type == kind {
            match label_with_id(resources, there) {
                Some(l) => rest.push(l),
                None => rest,
            }
        } else {
            rest
        }
    }
}

/// The domains a resource belongs to, with how: the join of the member rows
/// of the resource with the domains, in table order.
pub open spec fn domains_of(
    members: Seq<crate::model::store::DomainMember>,
    domains: Seq<Domain>,
    id: Seq<char>,
) -> Seq<(Domain, RelationshipType)>
    decreases members.len(),
{
    if members.len() == 0 {
        Seq::<(Domain, RelationshipType)>::empty()
    } else {
        let rest = domains_of(members.drop_last(), domains, id);
        let m = members.last();
        if m.resource_id@ == id {
            rest + domains.filter(|d: Domain| d.id@ == m.domain_id@).map_values(
                |d: Domain| (d, m.relationship),
            )
        } else {
            rest
        }
    }
}

/// The number of relationships of kind `kind` that point at `id`.
pub open spec fn incoming_count(rels: Seq<Relationship>, id: Seq<char>, kind: RelationshipType) -> nat {
    rels.filter(|r: Relationship| r.target_id@ == id && r.relationship_type == kind).len()
}

/// `d` is the detail of `resource` in `store`.
pub open spec fn detail_of(d: ResourceDetail, store: Store, resource: Resource) -> bool {
    let id = resource.id@;
    let rels = store.relationships@;
    let res = store.resources@;
    &&& d.resource == resource
    &&& same_observation_opt(d.observation, observation_of(store.observations@, id))
    &&& d.root == root_of(store.roots@, id)
    &&& d.domains@ == domains_of(store.domain_members@, store.domains@, id)
    &&& string_views(d.dependencies@) == related_labels(rels, res, id, RelationshipType::DependsOn, true)
    &&& string_views(d.dependents@) == related_labels(rels, res, id, RelationshipType::DependsOn, false)
    &&& string_views(d.provenance@) == related_labels(rels, res, id, RelationshipType::ComesFrom, true)
    &&& string_views(d.uses@) == related_labels(rels, res, id, RelationshipType::Uses, true)
    &&& d.package_count == if resource.resource_type == ResourceType::Repository {
        Some(incoming_count(rels, id, RelationshipType::ComesFrom) as usize)
    } else {
        None
    }
}

/// The text recorded under `key` in the metadata of the resource's
/// observation.
pub fn metadata_str(detail: &ResourceDetail, key: &str) -> (r: Option<String>)
    ensures
        opt_view(r) == observed_text(detail.observation, key@),
{
    metadata_text(&detail.observation, key)
}

/// The observation recorded for a resource.
pub(crate) fn find_observation(observations: &Vec<Observation>, id: &str) -> (r: Option<Observation>)
    ensures
        same_observation_opt(r, observation_of(observations@, id@)),
{
    let ghost pred = |o: Observation| o.resource_id@ == id@;
    let mut i: usize = 0;
    assert(observations@.take(0) =~= Seq::<Observation>::empty());
    while i < observations.len()
        invariant
            i <= observations@.len(),
            pred == (|o: Observation| o.resource_id@ == id@),
            first_match(observations@.take(i as int), pred) is None,
        decreases observations.len() - i,
    {
        if str_eq(observations[i].resource_id.as_str(), id) {
            proof {
                lemma_first_match_at(observations@, pred, i as int);
            }
            return Some(copy_observation(&observations[i]));
        }
        proof {
            lemma_first_match_none(observations@, pred, i as int);
        }
        i = i + 1;
    }
    assert(observations@.take(observations@.len() as int) =~= observations@);
    None
}

/// The root recorded for a resource.
pub(crate) fn find_root(roots: &Vec<Root>, id: &str) -> (r: Option<Root>)
    ensures
        r == root_of(roots@, id@),
{
    let ghost pred = |r: Root| r.resource_id@ == id@;
    let mut i: usize = 0;
    assert(roots@.take(0) =~= Seq::<Root>::empty());
    while i < roots.len()
        invariant
            i <= roots@.len(),
            pred == (|r: Root| r.resource_id@ == id@),
            first_match(roots@.take(i as int), pred) is None,
        decreases roots.len() - i,
    {
        if str_eq(roots[i].resource_id.as_str(), id) {
            proof {
                lemma_first_match_at(roots@, pred, i as int);
            }
            return Some(copy_root(&roots[i]));
        }
        proof {
            lemma_first_match_none(roots@, pred, i as int);
        }
        i = i + 1;
    }
    assert(roots@.take(roots@.len() as int) =~= roots@);
    None
}

/// The label of the resource with the given id.
fn find_label(resources: &Vec<Resource>, id: &str) -> (r: Option<String>)
    ensures
        match r {
            Some(l) => label_with_id(resources@, id@) == Some(l@),
            None => label_with_id(resources@, id@) is None,
        },
{
    let ghost pred = |r: Resource| r.id@ == id@;
    let mut i: usize = 0;
    assert(resources@.take(0) =~= Seq::<Resource>::empty());
    while i < resources.len()
        invariant
            i <= resources@.len(),
            pred == (|r: Resource| r.id@ == id@),
            first_match(resources@.take(i as int), pred) is None,
        decreases resources.len() - i,
    {
        if str_eq(resources[i].id.as_str(), id) {
            proof {
                lemma_first_match_at(resources@, pred, i as int);
            }
            return Some(String::from_str(resources[i].label()));
        }
        proof {
            lemma_first_match_none(resources@, pred, i as int);
        }
        i = i + 1;
    }
    assert(resources@.take(resources@.len() as int) =~= resources@);
    None
}

/// The labels of the resources related to `id` by `kind`.
fn related(store: &Store, id: &str, kind: RelationshipType, outgoing: bool) -> (r: Vec<String>)
    ensures
        string_views(r@) == related_labels(store.relationships@, store.resources@, id@, kind, outgoing),
{
    let ghost rels = store.relationships@;
    let mut out: Vec<String> = Vec::new();
    let mut i: usize = 0;
    while i < store.relationships.len()
        invariant
            i <= store.relationships.len(),
            rels == store.relationships@,
            string_views(out@) == related_labels(
                rels.take(i as int),
                store.resources@,
                id@,
                kind,
                outgoing,
            ),
        decreases store.relationships.len() - i,
    {
        let ghost t = rels.take(i + 1);
        assert(t.drop_last() =~= rels.take(i as int));
        let rel = &store.relationships[i];
        let (here, there) = if outgoing {
            (&rel.source_id, &rel.target_id)
        } else {
            (&rel.target_id, &rel.source_id)
        };
        if str_eq(here.as_str(), id) && rel.relationship_type == kind {
            match find_label(&store.resources, there.as_str()) {
                Some(l) => {
                    let ghost before = string_views(out@);
                    let ghost lv = l@;
                    out.push(l);
                    assert(string_views(out@) =~= before.push(lv));
                },
                None => {},
            }
        }
        i = i + 1;
    }
    assert(rels.take(rels.len() as int) =~= rels);
    out
}

/// The domains with the given id, paired with a relationship.
fn push_domains_with_id(
    domains: &Vec<Domain>,
    id: &String,
    kind: RelationshipType,
    out: &mut Vec<(Domain, RelationshipType)>,
)
    ensures
        final(out)@ == old(out)@ + domains@.filter(|d: Domain| d.id@ == id@).map_values(
            |d: Domain| (d, kind),
        ),
{
    let ghost start = out@;
    let ghost pred = |d: Domain| d.id@ == id@;
    let mut i: usize = 0;
    while i < domains.len()
        invariant
            i <= domains.len(),
            pred == (|d: Domain| d.id@ == id@),
            out@ == start + domains@.take(i as int).filter(pred).map_values(
                |d: Domain| (d, kind),
            ),
        decreases domains.len() - i,
    {
        proof {
            lemma_filter_step(domains@, pred, i as int);
        }
        let ghost before = domains@.take(i as int).filter(pred);
        if str_eq(domains[i].id.as_str(), id.as_str()) {
            out.push((copy_domain(&domains[i]), kind));
            assert(before.push(domains@[i as int]).map_values(|d: Domain| (d, kind))
                =~= before.map_values(|d: Domain| (d, kind)).push((domains@[i as int], kind)));
        }
        i = i + 1;
    }
    assert(domains@.take(domains.len() as int) =~= domains@);
}

/// The domains a resource belongs to, with how.
fn domains_for_resource(store: &Store, id: &str) -> (r: Vec<(Domain, RelationshipType)>)
    ensures
        r@ == domains_of(store.domain_members@, store.domains@, id@),
{
    let ghost ms = store.domain_members@;
    let mut out: Vec<(Domain, RelationshipType)> = Vec::new();
    let mut i: usize = 0;
    while i < store.domain_members.len()
        invariant
            i <= store.domain_members.len(),
            ms == store.domain_members@,
            out@ == domains_of(ms.take(i as int), store.domains@, id@),
        decreases store.domain_members.len() - i,
    {
        let ghost t = ms.take(i + 1);
        assert(t.drop_last() =~= ms.take(i as int));
        let m = &store.domain_members[i];
        if str_eq(m.resource_id.as_str(), id) {
            push_domains_with_id(&store.domains, &m.domain_id, m.relationship, &mut out);
        }
        i = i + 1;
    }
    assert(ms.take(ms.len() as int) =~= ms);
    out
}

/// The number of relationships of a kind that point at `id`.
pub(crate) fn count_incoming(rels: &Vec<Relationship>, id: &str, kind: RelationshipType) -> (n: usize)
    ensures
        n == incoming_count(rels@, id@, kind),
{
    let ghost pred = |r: Relationship| r.target_id@ == id@ && r.relationship_type == kind;
    let mut n: usize = 0;
    let mut i: usize = 0;
    while i < rels.len()
        invariant
            i <= rels.len(),
            pred == (|r: Relationship| r.target_id@ == id@ && r.relationship_type == kind),
            n == rels@.take(i as int).filter(pred).len(),
            n <= i,
        decreases rels.len() - i,
    {
        proof {
            lemma_filter_step(rels@, pred, i as int);
        }
        if str_eq(rels[i].target_id.as_str(), id) && rels[i].relationship_type == kind {
            n = n + 1;
        }
        i = i + 1;
    }
    assert(rels@.take(rels.len() as int) =~= rels@);
    n
}

/// Gather everything `show` needs about a resource.
pub fn gather(store: &Store, resource: &Resource) -> (d: ResourceDetail)
    ensures
        detail_of(d, *store, *resource),
{
    let id = resource.id.as_str();
    let package_count = if resource.resource_type == ResourceType::Repository {
        Some(count_incoming(&store.relationships, id, RelationshipType::ComesFrom))
    } else {
        None
    };
    ResourceDetail {
        resource: copy_resource(resource),
        observation: find_observation(&store.observations, id),
        root: find_root(&store.roots, id),
        domains: domains_for_resource(store, id),
        dependencies: related(store, id, RelationshipType::DependsOn, true),
        dependents: related(store, id, RelationshipType::DependsOn, false),
        provenance: related(store, id, RelationshipType::ComesFrom, true),
        uses: related(store, id, RelationshipType::Uses, true),
        package_count,
    }
}

/// The recorded installation state of a resource.
pub open spec fn recorded_text(installed: Option<bool>) -> Seq<char> {
    match installed {
        Some(true) => "installed"@,
        Some(false) => "missing — not currently present on the system"@,
        None => "not recorded"@,
    }
}

/// The recorded installation state, as text.
pub fn recorded_state(observation: Option<&Observation>) -> (s: String)
    ensures
        s@ == recorded_text(
            match observation {
                Some(o) => o.installed,
                None => None,
            },
        ),
{
    let installed = match observation {
        Some(o) => o.installed,
        None => None,
    };
    match installed {
        Some(true) => String::from_str("installed"),
        Some(false) => String::from_str("missing — not currently present on the system"),
        None => String::from_str("not recorded"),
    }
}

/// The parts of a service's state that its observation records, in order:
/// active or inactive, enabled or disabled, failed.
pub open spec fn service_parts(o: Observation) -> Seq<Seq<char>> {
    (match o.active {
        Some(true) => seq!["active"@],
        Some(false) => seq!["inactive"@],
        None => Seq::<Seq<char>>::empty(),
    }) + (match o.enabled {
        Some(true) => seq!["enabled"@],
        Some(false) => seq!["disabled"@],
        None => Seq::<Seq<char>>::empty(),
    }) + (if o.failed == Some(true) {
        seq!["failed"@]
    } else {
        Seq::<Seq<char>>::empty()
    })
}

/// Texts joined with `", "` between them.
pub open spec fn join_comma(parts: Seq<Seq<char>>) -> Seq<char>
    decreases parts.len(),
{
    if parts.len() == 0 {
        Seq::<char>::empty()
    } else if parts.len() == 1 {
        parts[0]
    } else {
        join_comma(parts.drop_last()) + ", "@ + parts.last()
    }
}

/// The state of a service: its recorded parts joined by commas, or
/// `unknown` when nothing is recorded.
pub open spec fn service_text(observation: Option<Observation>) -> Seq<char> {
    match observation {
        Some(o) => if service_parts(o).len() == 0 {
            "unknown"@
        } else {
            join_comma(service_parts(o))
        },
        None => "unknown"@,
    }
}

/// The state of a service, as text.
pub fn service_state(observation: Option<&Observation>) -> (s: String)
    ensures
        s@ == service_text(
            match observation {
                Some(o) => Some(*o),
                None => None,
            },
        ),
{
    let o = match observation {
        Some(o) => o,
        None => {
            return String::from_str("unknown");
        },
    };
    let mut parts: Vec<&str> = Vec::new();
    match o.active {
        Some(true) => parts.push("active"),
        Some(false) => parts.push("inactive"),
        None => {},
    }
    match o.enabled {
        Some(true) => parts.push("enabled"),
        Some(false) => parts.push("disabled"),
        None => {},
    }
    if o.failed == Some(true) {
        parts.push("failed");
    }
    let ghost pv = parts@.map_values(|p: &str| p@);
    assert(pv =~= service_parts(*o));
    if parts.len() == 0 {
        return String::from_str("unknown");
    }
    let mut s = String::new();
    let mut k: usize = 0;
    while k < parts.len()
        invariant
            k <= parts.len(),
            pv == parts@.map_values(|p: &str| p@),
            s@ == join_comma(pv.take(k as int)),
        decreases parts.len() - k,
    {
        if k > 0 {
            s.append(", ");
        }
        s.append(parts[k]);
        let ghost t = pv.take(k + 1);
        assert(t.drop_last() =~= pv.take(k as int));
        k = k + 1;
    }
    assert(pv.take(parts.len() as int) =~= pv);
    s
}

} // verus!
