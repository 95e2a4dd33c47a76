//! What `why` tells about one resource: whether and why it is intentional,
//! its recorded state, and its neighbours in the system graph.
use vstd::prelude::*;

use crate::cli::show::{find_observation, find_root, observation_of};
use crate::errors::ChapeauError;
use crate::model::analysis::{dependent_names, get_dependent_names};
use crate::model::graph::{
    in_edges, last_index, node_view, out_edges, relationship_edges, store_node_views, NodeLabel,
    NodeType, SystemGraph,
};
use crate::model::observation::{
    metadata_integer, metadata_text, observed_integer, observed_text, same_observation_opt,
    Observation,
};
use crate::model::relationship::RelationshipType;
use crate::model::resource::Resource;
use crate::model::root::Root;
use crate::model::root_policy::{opt_view, string_views};
use crate::model::store::{find_by_native_id, root_of, Store};
use crate::text::str_eq;

verus! {

/// A node at the other end of an edge: its label, and whether it is a
/// domain.
#[derive(Debug, Clone)]
pub struct Linked {
    pub label: String,
    pub is_domain: bool,
}

/// Everything `why` tells about one resource.
#[derive(Debug)]
pub struct WhyReport {
    /// The label of the resource's node.
    pub label: String,
    /// The package summary recorded by the last scan.
    pub summary: Option<String>,
    /// The package role recorded by the last scan.
    pub role: Option<String>,
    /// DNF's install reason recorded by the last scan.
    pub dnf_reason: Option<String>,
    /// The install date, `YYYY-MM-DD` in UTC, from the recorded install time.
    pub install_date: Option<String>,
    /// The root recorded for the resource.
    pub root: Option<Root>,
    /// The observation recorded for the resource.
    pub observation: Option<Observation>,
    /// The resource is recorded as not installed.
    pub missing: bool,
    /// The recorded role is one that supports other packages.
    pub is_supporting: bool,
    /// For a resource that is not a root: the resources depending on it.
    pub dependents: Vec<String>,
    /// Where the resource comes from (incoming `comes_from`).
    pub provenance: Vec<Linked>,
    /// What the resource depends on (outgoing `depends_on`).
    pub dependencies: Vec<Linked>,
    /// What depends on the resource (incoming `depends_on`).
    pub required_by: Vec<Linked>,
    /// What uses the resource (incoming `uses`).
    pub used_by: Vec<Linked>,
    /// The domains owning the resource (incoming `owns`).
    pub owned_by: Vec<Linked>,
    /// What the resource provides (outgoing `provides`).
    pub provides: Vec<Linked>,
    /// What the resource uses (outgoing `uses`).
    pub uses: Vec<Linked>,
    /// What the resource owns (outgoing `owns`).
    pub in_domains: Vec<Linked>,
}

/// The view of a linked node.
pub open spec fn linked_view(l: Linked) -> (Seq<char>, bool) {
    (l.label@, l.is_domain)
}

/// The views of linked nodes.
pub open spec fn linked_views(v: Seq<Linked>) -> Seq<(Seq<char>, bool)> {
    v.map_values(|l: Linked| linked_view(l))
}

/// The nodes at the other end of the edges of kind `kind`, each by label
/// and whether it is a domain, in the order of the edges.
pub open spec fn linked_of(
    edges: Seq<(int, RelationshipType)>,
    nodes: Seq<(Seq<char>, Seq<char>, NodeType)>,
    kind: RelationshipType,
) -> Seq<(Seq<char>, bool)>
    decreases edges.len(),
{
    if edges.len() == 0 {
        Seq::<(Seq<char>, bool)>::empty()
    } else {
        let rest = linked_of(edges.drop_last(), nodes, kind);
        let e = edges.last();
        if e.1 == kind {
            rest.push((nodes[e.0].1, nodes[e.0].2 == NodeType::Domain))
        } else {
            rest
        }
    }
}

/// The date of a Unix timestamp, `YYYY-MM-DD` in UTC, or nothing when chrono
/// cannot represent it.
pub uninterp spec fn utc_date_text(secs: i64) -> Option<Seq<char>>;

/// Calls `chrono::DateTime::from_timestamp(secs, 0)` and formats the result
/// with `format("%Y-%m-%d")`. The contract names the result: it depends on
/// `secs` alone, as the time zone is UTC.
#[verifier::external_body]
fn utc_date(secs: i64) -> (r: Option<String>)
    ensures
        opt_view(r) == utc_date_text(secs),
{
    match chrono::DateTime::from_timestamp(secs, 0) {
        Some(d) => Some(d.format("%Y-%m-%d").to_string()),
        None => None,
    }
}

/// The recorded install date of an observation.
pub open spec fn install_date_of(o: Option<Observation>) -> Option<Seq<char>> {
    match observed_integer(o, "install_time"@) {
        Some(t) => utc_date_text(t),
        None => None,
    }
}

/// `w` is what `why` tells about `resource` in `store`.
pub open spec fn why_of(w: WhyReport, store: Store, resource: Resource) -> bool {
    let id = resource.id@;
    let nodes = store_node_views(store);
    let edges = relationship_edges(store.relationships@, nodes);
    let idx = last_index(nodes, id)->0;
    let obs = observation_of(store.observations@, id);
    let role = observed_text(obs, "role"@);
    &&& w.label@ == nodes[idx].1
    &&& opt_view(w.summary) == observed_text(obs, "summary"@)
    &&& opt_view(w.role) == role
    &&& opt_view(w.dnf_reason) == observed_text(obs, "reason"@)
    &&& opt_view(w.install_date) == install_date_of(obs)
    &&& w.root == root_of(store.roots@, id)
    &&& same_observation_opt(w.observation, obs)
    &&& w.missing == (obs matches Some(o) && o.installed == Some(false))
    &&& w.is_supporting == (role matches Some(r) && r != "application"@)
    &&& string_views(w.dependents@) == if w.root is None {
        dependent_names(store, id)
    } else {
        Seq::<Seq<char>>::empty()
    }
    &&& linked_views(w.provenance@) == linked_of(in_edges(edges, idx), nodes, RelationshipType::ComesFrom)
    &&& linked_views(w.dependencies@) == linked_of(out_edges(edges, idx), nodes, RelationshipType::DependsOn)
    &&& linked_views(w.required_by@) == linked_of(in_edges(edges, idx), nodes, RelationshipType::DependsOn)
    &&& linked_views(w.used_by@) == linked_of(in_edges(edges, idx), nodes, RelationshipType::Uses)
    &&& linked_views(w.owned_by@) == linked_of(in_edges(edges, idx), nodes, RelationshipType::Owns)
    &&& linked_views(w.provides@) == linked_of(out_edges(edges, idx), nodes, RelationshipType::Provides)
    &&& linked_views(w.uses@) == linked_of(out_edges(edges, idx), nodes, RelationshipType::Uses)
    &&& linked_views(w.in_domains@) == linked_of(out_edges(edges, idx), nodes, RelationshipType::Owns)
}

/// The nodes at the other end of the edges of kind `kind`.
fn links_of(
    edges: &Vec<(usize, RelationshipType, NodeLabel)>,
    kind: RelationshipType,
    Ghost(nodes): Ghost<Seq<(Seq<char>, Seq<char>, NodeType)>>,
) -> (r: Vec<Linked>)
    requires
        forall|k: int|
            0 <= k < edges@.len() ==> (#[trigger] edges@[k]).0 < nodes.len() && node_view(edges@[k].2)
                == nodes[edges@[k].0 as int],
    ensures
        linked_views(r@) == linked_of(
            edges@.map_values(|e: (usize, RelationshipType, NodeLabel)| (e.0 as int, e.1)),
            nodes,
            kind,
        ),
{
    let ghost es = edges@.map_values(|e: (usize, RelationshipType, NodeLabel)| (e.0 as int, e.1));
    let mut r: Vec<Linked> = Vec::new();
    let mut i: usize = 0;
    assert(linked_views(r@) =~= linked_of(es.take(0), nodes, kind));
    while i < edges.len()
        invariant
            i <= edges@.len(),
            es == edges@.map_values(|e: (usize, RelationshipType, NodeLabel)| (e.0 as int, e.1)),
            forall|k: int|
                0 <= k < edges@.len() ==> (#[trigger] edges@[k]).0 < nodes.len() && node_view(
                    edges@[k].2,
                ) == nodes[edges@[k].0 as int],
            linked_views(r@) == linked_of(es.take(i as int), nodes, kind),
        decreases edges.len() - i,
    {
        let ghost t = es.take(i + 1);
        assert(t.drop_last() =~= es.take(i as int));
        assert(t.last() == (edges@[i as int].0 as int, edges@[i as int].1));
        let e = &edges[i];
        if e.1 == kind {
            let ghost before = r@;
            r.push(Linked { label: e.2.label.clone(), is_domain: e.2.node_type == NodeType::Domain });
            assert(linked_views(r@) =~= linked_views(before).push(
                (nodes[e.0 as int].1, nodes[e.0 as int].2 == NodeType::Domain),
            ));
        }
        i = i + 1;
    }
    assert(es.take(i as int) =~= es);
    r
}

/// What `why` tells about the resource with native id `resource_name`; the
/// error when there is no such resource, or it has no node.
pub fn explain(store: &Store, resource_name: &str) -> (r: Result<WhyReport, ChapeauError>)
    requires
        store.resources@.len() + store.domains@.len() < u32::MAX,
        store.relationships@.len() < u32::MAX,
    ensures
        match r {
            Ok(w) => find_by_native_id(store.resources@, resource_name@) matches Some(res)
                && last_index(store_node_views(*store), res.id@) is Some && why_of(w, *store, res),
            Err(e) => {
                &&& (find_by_native_id(store.resources@, resource_name@) matches Some(res)
                    ==> last_index(store_node_views(*store), res.id@) is None)
                &&& e matches ChapeauError::ResourceNotFound(m)
                &&& m@ == resource_name@
            },
        },
{
    let resource = match store.find_by_native_id(resource_name) {
        Some(res) => res,
        None => return Err(ChapeauError::ResourceNotFound(String::from_str(resource_name))),
    };
    let graph = SystemGraph::from_db(store);
    let idx = match graph.node_index(resource.id.as_str()) {
        Some(i) => i,
        None => return Err(ChapeauError::ResourceNotFound(String::from_str(resource_name))),
    };
    proof {
        crate::model::graph::lemma_last_index_bounds(graph.nodes(), resource.id@);
    }
    let node = graph.node(idx);
    let root = find_root(&store.roots, resource.id.as_str());
    let observation = find_observation(&store.observations, resource.id.as_str());
    let summary = metadata_text(&observation, "summary");
    let role = metadata_text(&observation, "role");
    let dnf_reason = metadata_text(&observation, "reason");
    let install_date = match metadata_integer(&observation, "install_time") {
        Some(t) => utc_date(t),
        None => None,
    };
    let missing = match &observation {
        Some(o) => match o.installed {
            Some(installed) => !installed,
            None => false,
        },
        None => false,
    };
    let is_supporting = match &role {
        Some(r) => !str_eq(r.as_str(), "application"),
        None => false,
    };
    let dependents = if root.is_none() {
        get_dependent_names(store, resource.id.as_str())
    } else {
        let none: Vec<String> = Vec::new();
        assert(string_views(none@) =~= Seq::<Seq<char>>::empty());
        none
    };
    let incoming = graph.incoming(idx);
    let outgoing = graph.outgoing(idx);
    let ghost nodes = graph.nodes();
    let report = WhyReport {
        label: node.label.clone(),
        summary,
        role,
        dnf_reason,
        install_date,
        root,
        observation,
        missing,
        is_supporting,
        dependents,
        provenance: links_of(&incoming, RelationshipType::ComesFrom, Ghost(nodes)),
        dependencies: links_of(&outgoing, RelationshipType::DependsOn, Ghost(nodes)),
        required_by: links_of(&incoming, RelationshipType::DependsOn, Ghost(nodes)),
        used_by: links_of(&incoming, RelationshipType::Uses, Ghost(nodes)),
        owned_by: links_of(&incoming, RelationshipType::Owns, Ghost(nodes)),
        provides: links_of(&outgoing, RelationshipType::Provides, Ghost(nodes)),
        uses: links_of(&outgoing, RelationshipType::Uses, Ghost(nodes)),
        in_domains: links_of(&outgoing, RelationshipType::Owns, Ghost(nodes)),
    };
    Ok(report)
}

} // verus!
