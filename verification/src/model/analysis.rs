//! Orphaned and unused resources: what protects a resource from removal.
use vstd::prelude::*;

use crate::model::relationship::RelationshipType;
use crate::model::resource::{Resource, ResourceType};
use crate::model::root_policy::string_views;
use crate::model::store::{
    domain_names_with_id, has_member, has_relationship_from, has_relationship_to,
    member_domain_names, native_ids_with_id, root_of, source_names, Store,
};
use crate::order::{
    lemma_stable_sort_contains, lemma_stable_sort_permutation, lemma_stable_sort_sorted, lemma_text_order_total_preorder,
    sort_texts, sorted_by, stable_sort, text_order,
};
use crate::seqs::lemma_filter_step;

verus! {

/// Reason a resource appears in the orphaned or unused analysis.
#[derive(Debug, Clone, Copy, PartialEq, Eq, Structural)]
pub enum AnalysisReason {
    /// No other resource has a DependsOn relationship pointing at this resource.
    NoDependents,
    /// No domain owns this resource.
    NoDomainOwnership,
    /// No domain uses this resource.
    NoDomainUsage,
    /// This resource does not depend on any other resource.
    NoDependencies,
    /// This resource does not interact with any other resource via Provides/Uses.
    NoInteractions,
}

impl AnalysisReason {
    /// The description of the reason.
    pub open spec fn text(self) -> Seq<char> {
        match self {
            AnalysisReason::NoDependents => "No remaining dependents"@,
            AnalysisReason::NoDomainOwnership => "No domain ownership"@,
            AnalysisReason::NoDomainUsage => "No domain usage"@,
            AnalysisReason::NoDependencies => "Does not depend on other resources"@,
            AnalysisReason::NoInteractions => "Does not interact with other resources"@,
        }
    }

    /// Human-readable description of the reason.
    pub fn description(&self) -> (s: &'static str)
        ensures
            s@ == self.text(),
    {
        match self {
            AnalysisReason::NoDependents => "No remaining dependents",
            AnalysisReason::NoDomainOwnership => "No domain ownership",
            AnalysisReason::NoDomainUsage => "No domain usage",
            AnalysisReason::NoDependencies => "Does not depend on other resources",
            AnalysisReason::NoInteractions => "Does not interact with other resources",
        }
    }
}

/// Result of analyzing a single resource.
#[derive(Debug, Clone)]
pub struct ResourceAnalysis {
    pub resource: Resource,
    pub reasons: Vec<AnalysisReason>,
    /// Resources that depend on this one (incoming DependsOn).
    pub dependents: Vec<String>,
    /// Domains that own this resource.
    pub owned_by_domains: Vec<String>,
    /// Domains that use this resource.
    pub used_by_domains: Vec<String>,
    /// Services associated with this resource (for packages).
    pub affected_services: Vec<String>,
}

/// The native ids of the resources that depend on `id`, sorted.
pub open spec fn dependent_names(store: Store, id: Seq<char>) -> Seq<Seq<char>> {
    stable_sort(
        source_names(
            store.relationships@,
            store.resources@,
            id,
            RelationshipType::DependsOn,
            None,
        ),
        text_order(),
    )
}

/// The names of the domains that own `id`, sorted.
pub open spec fn owning_domain_names(store: Store, id: Seq<char>) -> Seq<Seq<char>> {
    stable_sort(
        member_domain_names(store.domain_members@, store.domains@, id, RelationshipType::Owns),
        text_order(),
    )
}

/// The names of the domains that use `id`, sorted.
pub open spec fn using_domain_names(store: Store, id: Seq<char>) -> Seq<Seq<char>> {
    stable_sort(
        member_domain_names(store.domain_members@, store.domains@, id, RelationshipType::Uses),
        text_order(),
    )
}

/// The native ids of the services that come from `id`, sorted.
pub open spec fn associated_services(store: Store, id: Seq<char>) -> Seq<Seq<char>> {
    stable_sort(
        source_names(
            store.relationships@,
            store.resources@,
            id,
            RelationshipType::ComesFrom,
            Some(ResourceType::Service),
        ),
        text_order(),
    )
}

/// The one reason when `cond` holds, else none.
pub open spec fn reason_if(cond: bool, r: AnalysisReason) -> Seq<AnalysisReason> {
    if cond {
        seq![r]
    } else {
        Seq::<AnalysisReason>::empty()
    }
}

/// The reasons a resource counts as orphaned, in order: no dependents, no
/// owning domain, no using domain.
pub open spec fn orphan_reasons(store: Store, id: Seq<char>) -> Seq<AnalysisReason> {
    reason_if(dependent_names(store, id).len() == 0, AnalysisReason::NoDependents) + reason_if(
        owning_domain_names(store, id).len() == 0,
        AnalysisReason::NoDomainOwnership,
    ) + reason_if(using_domain_names(store, id).len() == 0, AnalysisReason::NoDomainUsage)
}

/// The reasons a resource counts as unused, in order: the orphan reasons,
/// then no dependencies, then no interactions.
pub open spec fn unused_reasons(store: Store, id: Seq<char>) -> Seq<AnalysisReason> {
    orphan_reasons(store, id) + reason_if(
        !has_relationship_from(store.relationships@, id, RelationshipType::DependsOn),
        AnalysisReason::NoDependencies,
    ) + reason_if(
        !(has_relationship_from(store.relationships@, id, RelationshipType::Provides)
            || has_relationship_from(store.relationships@, id, RelationshipType::Uses)),
        AnalysisReason::NoInteractions,
    )
}

/// `a` is the analysis of `resource` in `store` with the given reasons.
pub open spec fn analysis_of(
    a: ResourceAnalysis,
    store: Store,
    resource: Resource,
    reasons: Seq<AnalysisReason>,
) -> bool {
    &&& a.resource == resource
    &&& a.reasons@ == reasons
    &&& string_views(a.dependents@) == dependent_names(store, resource.id@)
    &&& string_views(a.owned_by_domains@) == owning_domain_names(store, resource.id@)
    &&& string_views(a.used_by_domains@) == using_domain_names(store, resource.id@)
    &&& string_views(a.affected_services@) == associated_services(store, resource.id@)
}

/// Check if a resource has any incoming DependsOn relationships (other
/// resources depend on it).
pub fn has_dependents(store: &Store, resource_id: &str) -> (r: bool)
    ensures
        r == has_relationship_to(store.relationships@, resource_id@, RelationshipType::DependsOn),
{
    store.has_relationship_to(resource_id, RelationshipType::DependsOn)
}

/// Get the names of resources that depend on a given resource, sorted.
pub fn get_dependent_names(store: &Store, resource_id: &str) -> (r: Vec<String>)
    ensures
        string_views(r@) == dependent_names(*store, resource_id@),
{
    sort_texts(store.source_names(resource_id, RelationshipType::DependsOn, None))
}

/// Check if a resource is owned by any domain.
pub fn is_domain_owned(store: &Store, resource_id: &str) -> (r: bool)
    ensures
        r == has_member(store.domain_members@, resource_id@, RelationshipType::Owns),
{
    store.has_member(resource_id, RelationshipType::Owns)
}

/// Get the names of domains that own a resource, sorted.
pub fn get_owning_domain_names(store: &Store, resource_id: &str) -> (r: Vec<String>)
    ensures
        string_views(r@) == owning_domain_names(*store, resource_id@),
{
    sort_texts(store.member_domain_names(resource_id, RelationshipType::Owns))
}

/// Check if a resource is used by any domain.
pub fn is_domain_used(store: &Store, resource_id: &str) -> (r: bool)
    ensures
        r == has_member(store.domain_members@, resource_id@, RelationshipType::Uses),
{
    store.has_member(resource_id, RelationshipType::Uses)
}

/// Get the names of domains that use a resource, sorted.
pub fn get_using_domain_names(store: &Store, resource_id: &str) -> (r: Vec<String>)
    ensures
        string_views(r@) == using_domain_names(*store, resource_id@),
{
    sort_texts(store.member_domain_names(resource_id, RelationshipType::Uses))
}

/// Check if a resource has any outgoing DependsOn relationships.
pub fn has_dependencies(store: &Store, resource_id: &str) -> (r: bool)
    ensures
        r == has_relationship_from(store.relationships@, resource_id@, RelationshipType::DependsOn),
{
    store.has_relationship_from(resource_id, RelationshipType::DependsOn)
}

/// Check if a resource has any Provides or Uses relationships (as source).
pub fn has_interactions(store: &Store, resource_id: &str) -> (r: bool)
    ensures
        r == (has_relationship_from(store.relationships@, resource_id@, RelationshipType::Provides)
            || has_relationship_from(store.relationships@, resource_id@, RelationshipType::Uses)),
{
    store.has_relationship_from(resource_id, RelationshipType::Provides)
        || store.has_relationship_from(resource_id, RelationshipType::Uses)
}

/// Find services associated with a package via ComesFrom relationships: if
/// service S comes from package P, removing P affects S. Sorted.
pub fn find_associated_services(store: &Store, resource_id: &str) -> (r: Vec<String>)
    ensures
        string_views(r@) == associated_services(*store, resource_id@),
{
    sort_texts(
        store.source_names(
            resource_id,
            RelationshipType::ComesFrom,
            Some(ResourceType::Service),
        ),
    )
}

/// A copy of a resource, field by field.
pub fn copy_resource(r: &Resource) -> (c: Resource)
    ensures
        c == *r,
{
    Resource {
        id: r.id.clone(),
        resource_type: r.resource_type,
        native_id: r.native_id.clone(),
        display_name: match &r.display_name {
            Some(n) => Some(n.clone()),
            None => None,
        },
        created_at: r.created_at.clone(),
        updated_at: r.updated_at.clone(),
    }
}

/// Analyze a single resource for orphaned status.
///
/// A resource is "orphaned" (potentially removable) when no other resource
/// depends on it, no domain owns it and no domain uses it; each of these
/// that holds is a reason. Domain ownership alone does not make a resource
/// non-removable: all protection signals are evaluated.
pub fn analyze_orphaned(store: &Store, resource: &Resource) -> (a: ResourceAnalysis)
    ensures
        analysis_of(a, *store, *resource, orphan_reasons(*store, resource.id@)),
{
    let mut reasons: Vec<AnalysisReason> = Vec::new();
    let dependents = get_dependent_names(store, resource.id.as_str());
    if dependents.len() == 0 {
        reasons.push(AnalysisReason::NoDependents);
    }
    let owned_by_domains = get_owning_domain_names(store, resource.id.as_str());
    if owned_by_domains.len() == 0 {
        reasons.push(AnalysisReason::NoDomainOwnership);
    }
    let used_by_domains = get_using_domain_names(store, resource.id.as_str());
    if used_by_domains.len() == 0 {
        reasons.push(AnalysisReason::NoDomainUsage);
    }
    let affected_services = find_associated_services(store, resource.id.as_str());
    assert(reasons@ =~= orphan_reasons(*store, resource.id@));
    ResourceAnalysis {
        resource: copy_resource(resource),
        reasons,
        dependents,
        owned_by_domains,
        used_by_domains,
        affected_services,
    }
}

/// Analyze a single resource for unused status.
///
/// A resource is "unused" when no other resource depends on it, no domain
/// owns or uses it, it depends on nothing, and it provides or uses nothing;
/// each of these that holds is a reason.
pub fn analyze_unused(store: &Store, resource: &Resource) -> (a: ResourceAnalysis)
    ensures
        analysis_of(a, *store, *resource, unused_reasons(*store, resource.id@)),
{
    let mut a = analyze_orphaned(store, resource);
    if !has_dependencies(store, resource.id.as_str()) {
        a.reasons.push(AnalysisReason::NoDependencies);
    }
    if !has_interactions(store, resource.id.as_str()) {
        a.reasons.push(AnalysisReason::NoInteractions);
    }
    assert(a.reasons@ =~= unused_reasons(*store, resource.id@));
    a
}

/// The resources that `find_orphaned` reports: every one that is not a
/// repository and has at least one orphan reason, in table order.
pub open spec fn orphan_candidates(store: Store) -> Seq<Resource> {
    store.resources@.filter(
        |r: Resource|
            r.resource_type != ResourceType::Repository && orphan_reasons(store, r.id@).len() > 0,
    )
}

/// The resources that `find_unused` reports: every one that is not a
/// repository and has all five unused reasons, in table order.
pub open spec fn unused_candidates(store: Store) -> Seq<Resource> {
    store.resources@.filter(
        |r: Resource|
            r.resource_type != ResourceType::Repository && unused_reasons(store, r.id@).len() >= 5,
    )
}

/// Find all orphaned resources. Repositories are containers, not removable
/// units, and are skipped.
pub fn find_orphaned(store: &Store) -> (r: Vec<ResourceAnalysis>)
    ensures
        r@.len() == orphan_candidates(*store).len(),
        forall|k: int|
            0 <= k < r@.len() ==> analysis_of(
                #[trigger] r@[k],
                *store,
                orphan_candidates(*store)[k],
                orphan_reasons(*store, orphan_candidates(*store)[k].id@),
            ),
{
    let ghost st = *store;
    let ghost pred = |r: Resource|
        r.resource_type != ResourceType::Repository && orphan_reasons(st, r.id@).len() > 0;
    let ghost all = store.resources@;
    let mut results: Vec<ResourceAnalysis> = Vec::new();
    let mut i: usize = 0;
    while i < store.resources.len()
        invariant
            i <= store.resources.len(),
            st == *store,
            all == store.resources@,
            pred == (|r: Resource|
                r.resource_type != ResourceType::Repository && orphan_reasons(st, r.id@).len()
                    > 0),
            results@.len() == all.take(i as int).filter(pred).len(),
            forall|k: int|
                0 <= k < results@.len() ==> analysis_of(
                    #[trigger] results@[k],
                    st,
                    all.take(i as int).filter(pred)[k],
                    orphan_reasons(st, all.take(i as int).filter(pred)[k].id@),
                ),
        decreases store.resources.len() - i,
    {
        proof {
            lemma_filter_step(all, pred, i as int);
        }
        let resource = &store.resources[i];
        if resource.resource_type != ResourceType::Repository {
            let analysis = analyze_orphaned(store, resource);
            if analysis.reasons.len() > 0 {
                results.push(analysis);
            }
        }
        i = i + 1;
    }
    assert(all.take(all.len() as int) =~= all);
    results
}

/// Find all unused resources: those with all five reasons. Repositories
/// are skipped.
pub fn find_unused(store: &Store) -> (r: Vec<ResourceAnalysis>)
    ensures
        r@.len() == unused_candidates(*store).len(),
        forall|k: int|
            0 <= k < r@.len() ==> analysis_of(
                #[trigger] r@[k],
                *store,
                unused_candidates(*store)[k],
                unused_reasons(*store, unused_candidates(*store)[k].id@),
            ),
{
    let ghost st = *store;
    let ghost pred = |r: Resource|
        r.resource_type != ResourceType::Repository && unused_reasons(st, r.id@).len() >= 5;
    let ghost all = store.resources@;
    let mut results: Vec<ResourceAnalysis> = Vec::new();
    let mut i: usize = 0;
    while i < store.resources.len()
        invariant
            i <= store.resources.len(),
            st == *store,
            all == store.resources@,
            pred == (|r: Resource|
                r.resource_type != ResourceType::Repository && unused_reasons(st, r.id@).len()
                    >= 5),
            results@.len() == all.take(i as int).filter(pred).len(),
            forall|k: int|
                0 <= k < results@.len() ==> analysis_of(
                    #[trigger] results@[k],
                    st,
                    all.take(i as int).filter(pred)[k],
                    unused_reasons(st, all.take(i as int).filter(pred)[k].id@),
                ),
        decreases store.resources.len() - i,
    {
        proof {
            lemma_filter_step(all, pred, i as int);
        }
        let resource = &store.resources[i];
        if resource.resource_type != ResourceType::Repository {
            let analysis = analyze_unused(store, resource);
            if analysis.reasons.len() >= 5 {
                results.push(analysis);
            }
        }
        i = i + 1;
    }
    assert(all.take(all.len() as int) =~= all);
    results
}

/// The two removal analyses.
#[derive(Debug, Clone, Copy, PartialEq, Eq, Structural)]
pub enum AnalysisKind {
    /// Resources nothing depends on and no domain owns or uses.
    Orphaned,
    /// Orphaned resources that also depend on nothing and interact with
    /// nothing.
    Unused,
}

/// The reasons an analysis of the given kind gives a resource.
pub open spec fn kind_reasons(store: Store, id: Seq<char>, kind: AnalysisKind) -> Seq<AnalysisReason> {
    match kind {
        AnalysisKind::Orphaned => orphan_reasons(store, id),
        AnalysisKind::Unused => unused_reasons(store, id),
    }
}

/// An analysis of the given kind reports the resource: it is not a
/// repository, it is not an intentional resource (a root), and it has the
/// reasons of its kind.
pub open spec fn reported(store: Store, r: Resource, kind: AnalysisKind) -> bool {
    &&& r.resource_type != ResourceType::Repository
    &&& root_of(store.roots@, r.id@) is None
    &&& match kind {
        AnalysisKind::Orphaned => orphan_reasons(store, r.id@).len() > 0,
        AnalysisKind::Unused => unused_reasons(store, r.id@).len() >= 5,
    }
}

/// The resources an analysis of the given kind reports, in table order.
pub open spec fn reported_resources(store: Store, kind: AnalysisKind) -> Seq<Resource> {
    store.resources@.filter(|r: Resource| reported(store, r, kind))
}

/// Run an analysis: the orphaned or unused resources, intentional
/// resources (roots) excluded.
pub fn run_analysis(store: &Store, kind: AnalysisKind) -> (r: Vec<ResourceAnalysis>)
    ensures
        r@.len() == reported_resources(*store, kind).len(),
        forall|k: int|
            0 <= k < r@.len() ==> analysis_of(
                #[trigger] r@[k],
                *store,
                reported_resources(*store, kind)[k],
                kind_reasons(*store, reported_resources(*store, kind)[k].id@, kind),
            ),
{
    let ghost st = *store;
    let ghost pred = |r: Resource| reported(st, r, kind);
    let ghost all = store.resources@;
    let mut results: Vec<ResourceAnalysis> = Vec::new();
    let mut i: usize = 0;
    while i < store.resources.len()
        invariant
            i <= store.resources.len(),
            st == *store,
            all == store.resources@,
            pred == (|r: Resource| reported(st, r, kind)),
            results@.len() == all.take(i as int).filter(pred).len(),
            forall|k: int|
                0 <= k < results@.len() ==> analysis_of(
                    #[trigger] results@[k],
                    st,
                    all.take(i as int).filter(pred)[k],
                    kind_reasons(st, all.take(i as int).filter(pred)[k].id@, kind),
                ),
        decreases store.resources.len() - i,
    {
        proof {
            lemma_filter_step(all, pred, i as int);
        }
        let resource = &store.resources[i];
        if resource.resource_type != ResourceType::Repository && store.root_source_of(
            resource.id.as_str(),
        ).is_none() {
            match kind {
                AnalysisKind::Orphaned => {
                    let analysis = analyze_orphaned(store, resource);
                    if analysis.reasons.len() > 0 {
                        results.push(analysis);
                    }
                },
                AnalysisKind::Unused => {
                    let analysis = analyze_unused(store, resource);
                    if analysis.reasons.len() >= 5 {
                        results.push(analysis);
                    }
                },
            }
        }
        i = i + 1;
    }
    assert(all.take(all.len() as int) =~= all);
    results
}

/// Intentional resources are excluded from both analyses: a resource with
/// a root is never reported.
pub proof fn law_roots_are_never_reported(store: Store, r: Resource, kind: AnalysisKind)
    requires
        root_of(store.roots@, r.id@) is Some,
    ensures
        !reported_resources(store, kind).contains(r),
{
    let pred = |x: Resource| reported(store, x, kind);
    if reported_resources(store, kind).contains(r) {
        let i = choose|i: int|
            0 <= i < reported_resources(store, kind).len() && reported_resources(store, kind)[i] == r;
        store.resources@.lemma_filter_pred(pred, i);
    }
}

/// Domain ownership alone does not protect a resource: a resource that is
/// not a repository and that nothing depends on is reported as orphaned,
/// whatever domains own or use it.
pub proof fn law_domain_ownership_alone_does_not_protect(store: Store, k: int)
    requires
        0 <= k < store.resources@.len(),
        store.resources@[k].resource_type != ResourceType::Repository,
        dependent_names(store, store.resources@[k].id@).len() == 0,
    ensures
        orphan_candidates(store).contains(store.resources@[k]),
        orphan_reasons(store, store.resources@[k].id@)[0] == AnalysisReason::NoDependents,
{
    let r = store.resources@[k];
    let pred = |x: Resource|
        x.resource_type != ResourceType::Repository && orphan_reasons(store, x.id@).len() > 0;
    assert(orphan_reasons(store, r.id@).len() > 0);
    store.resources@.lemma_filter_contains(pred, k);
}

/// A resource that other resources depend on is never given the
/// "no dependents" reason, and is never reported unused.
pub proof fn law_depended_on_resources_are_kept(store: Store, r: Resource)
    requires
        dependent_names(store, r.id@).len() > 0,
    ensures
        !orphan_reasons(store, r.id@).contains(AnalysisReason::NoDependents),
        !unused_reasons(store, r.id@).contains(AnalysisReason::NoDependents),
        !unused_candidates(store).contains(r),
{
    let id = r.id@;
    let o = orphan_reasons(store, id);
    assert(o =~= reason_if(owning_domain_names(store, id).len() == 0, AnalysisReason::NoDomainOwnership)
        + reason_if(using_domain_names(store, id).len() == 0, AnalysisReason::NoDomainUsage));
    assert(o.len() <= 2);
    assert forall|k: int| 0 <= k < o.len() implies o[k] != AnalysisReason::NoDependents by {}
    let u = unused_reasons(store, id);
    assert forall|k: int| 0 <= k < u.len() implies u[k] != AnalysisReason::NoDependents by {
        if k >= o.len() {
            assert(u[k] == AnalysisReason::NoDependencies || u[k] == AnalysisReason::NoInteractions);
        }
    }
    assert(u.len() <= 4);
    let upred = |x: Resource|
        x.resource_type != ResourceType::Repository && unused_reasons(store, x.id@).len() >= 5;
    if unused_candidates(store).contains(r) {
        store.resources@.lemma_filter_contains_rev(upred, r);
        let i = choose|i: int| 0 <= i < unused_candidates(store).len() && unused_candidates(store)[i] == r;
        store.resources@.lemma_filter_pred(upred, i);
    }
}

/// A resource that uses or provides another one interacts with the system:
/// it never gets the "no interactions" reason and is never reported unused,
/// whatever else holds of it.
pub proof fn law_interacting_resources_are_not_unused(store: Store, r: Resource, j: int)
    requires
        0 <= j < store.relationships@.len(),
        store.relationships@[j].source_id@ == r.id@,
        store.relationships@[j].relationship_type == RelationshipType::Uses
            || store.relationships@[j].relationship_type == RelationshipType::Provides,
    ensures
        !unused_reasons(store, r.id@).contains(AnalysisReason::NoInteractions),
        !unused_candidates(store).contains(r),
        !reported_resources(store, AnalysisKind::Unused).contains(r),
{
    let id = r.id@;
    let rels = store.relationships@;
    assert(rels[j].source_id@ == id);
    assert(has_relationship_from(rels, id, RelationshipType::Provides) || has_relationship_from(
        rels,
        id,
        RelationshipType::Uses,
    ));
    let o = orphan_reasons(store, id);
    let u = unused_reasons(store, id);
    assert(u =~= o + reason_if(
        !has_relationship_from(rels, id, RelationshipType::DependsOn),
        AnalysisReason::NoDependencies,
    ));
    assert(o.len() <= 3);
    assert(u.len() <= 4);
    assert forall|k: int| 0 <= k < u.len() implies u[k] != AnalysisReason::NoInteractions by {
        if k >= o.len() {
            assert(u[k] == AnalysisReason::NoDependencies);
        }
    }
    let upred = |x: Resource|
        x.resource_type != ResourceType::Repository && unused_reasons(store, x.id@).len() >= 5;
    if unused_candidates(store).contains(r) {
        let i = choose|i: int| 0 <= i < unused_candidates(store).len() && unused_candidates(store)[i] == r;
        store.resources@.lemma_filter_pred(upred, i);
    }
    let rpred = |x: Resource| reported(store, x, AnalysisKind::Unused);
    if reported_resources(store, AnalysisKind::Unused).contains(r) {
        let i = choose|i: int|
            0 <= i < reported_resources(store, AnalysisKind::Unused).len() && reported_resources(
                store,
                AnalysisKind::Unused,
            )[i] == r;
        store.resources@.lemma_filter_pred(rpred, i);
    }
}

proof fn lemma_native_ids_contain(resources: Seq<Resource>, m: int, only: Option<ResourceType>)
    requires
        0 <= m < resources.len(),
        only is None,
    ensures
        native_ids_with_id(resources, resources[m].id@, only).contains(resources[m].native_id@),
    decreases resources.len(),
{
    let t = resources.drop_last();
    let id = resources[m].id@;
    if m < resources.len() - 1 {
        assert(t[m] == resources[m]);
        lemma_native_ids_contain(t, m, only);
        let rest = native_ids_with_id(t, id, only);
        let i = choose|i: int| 0 <= i < rest.len() && rest[i] == resources[m].native_id@;
        if resources.last().id@ == id {
            assert(rest.push(resources.last().native_id@)[i] == resources[m].native_id@);
        }
    } else {
        let rest = native_ids_with_id(t, id, only);
        assert(rest.push(resources[m].native_id@)[rest.len() as int] == resources[m].native_id@);
    }
}

proof fn lemma_source_names_contain(
    rels: Seq<crate::model::relationship::Relationship>,
    resources: Seq<Resource>,
    target: Seq<char>,
    kind: RelationshipType,
    j: int,
    m: int,
)
    requires
        0 <= j < rels.len(),
        0 <= m < resources.len(),
        rels[j].target_id@ == target,
        rels[j].relationship_type == kind,
        resources[m].id@ == rels[j].source_id@,
    ensures
        source_names(rels, resources, target, kind, None).contains(resources[m].native_id@),
    decreases rels.len(),
{
    let t = rels.drop_last();
    let x = resources[m].native_id@;
    let rest = source_names(t, resources, target, kind, None);
    if j < rels.len() - 1 {
        assert(t[j] == rels[j]);
        lemma_source_names_contain(t, resources, target, kind, j, m);
        let i = choose|i: int| 0 <= i < rest.len() && rest[i] == x;
        let r = rels.last();
        if r.target_id@ == target && r.relationship_type == kind {
            let all = rest + native_ids_with_id(resources, r.source_id@, None);
            assert(all[i] == x);
        }
    } else {
        lemma_native_ids_contain(resources, m, None);
        let ids = native_ids_with_id(resources, resources[m].id@, None);
        let i = choose|i: int| 0 <= i < ids.len() && ids[i] == x;
        assert((rest + ids)[rest.len() + i] == x);
    }
}

/// A resource that another resource of the table depends on lists that
/// resource among its dependents, never gets the "no dependents" reason and
/// is never reported unused.
pub proof fn law_dependents_are_listed(store: Store, r: Resource, j: int, m: int)
    requires
        0 <= j < store.relationships@.len(),
        0 <= m < store.resources@.len(),
        store.relationships@[j].target_id@ == r.id@,
        store.relationships@[j].relationship_type == RelationshipType::DependsOn,
        store.resources@[m].id@ == store.relationships@[j].source_id@,
    ensures
        dependent_names(store, r.id@).contains(store.resources@[m].native_id@),
        !orphan_reasons(store, r.id@).contains(AnalysisReason::NoDependents),
        !unused_candidates(store).contains(r),
{
    let src = source_names(
        store.relationships@,
        store.resources@,
        r.id@,
        RelationshipType::DependsOn,
        None,
    );
    lemma_source_names_contain(
        store.relationships@,
        store.resources@,
        r.id@,
        RelationshipType::DependsOn,
        j,
        m,
    );
    lemma_stable_sort_contains(src, text_order(), store.resources@[m].native_id@);
    law_depended_on_resources_are_kept(store, r);
}

proof fn lemma_domain_names_contain(domains: Seq<crate::model::domain::Domain>, m: int)
    requires
        0 <= m < domains.len(),
    ensures
        domain_names_with_id(domains, domains[m].id@).contains(domains[m].name@),
    decreases domains.len(),
{
    let t = domains.drop_last();
    let id = domains[m].id@;
    let rest = domain_names_with_id(t, id);
    if m < domains.len() - 1 {
        assert(t[m] == domains[m]);
        lemma_domain_names_contain(t, m);
        let i = choose|i: int| 0 <= i < rest.len() && rest[i] == domains[m].name@;
        if domains.last().id@ == id {
            assert(rest.push(domains.last().name@)[i] == domains[m].name@);
        }
    } else {
        assert(rest.push(domains[m].name@)[rest.len() as int] == domains[m].name@);
    }
}

proof fn lemma_member_names_contain(
    members: Seq<crate::model::store::DomainMember>,
    domains: Seq<crate::model::domain::Domain>,
    id: Seq<char>,
    kind: RelationshipType,
    j: int,
    m: int,
)
    requires
        0 <= j < members.len(),
        0 <= m < domains.len(),
        members[j].resource_id@ == id,
        members[j].relationship == kind,
        domains[m].id@ == members[j].domain_id@,
    ensures
        member_domain_names(members, domains, id, kind).contains(domains[m].name@),
    decreases members.len(),
{
    let t = members.drop_last();
    let x = domains[m].name@;
    let rest = member_domain_names(t, domains, id, kind);
    if j < members.len() - 1 {
        assert(t[j] == members[j]);
        lemma_member_names_contain(t, domains, id, kind, j, m);
        let i = choose|i: int| 0 <= i < rest.len() && rest[i] == x;
        let mm = members.last();
        if mm.resource_id@ == id && mm.relationship == kind {
            assert((rest + domain_names_with_id(domains, mm.domain_id@))[i] == x);
        }
    } else {
        lemma_domain_names_contain(domains, m);
        let ns = domain_names_with_id(domains, domains[m].id@);
        let i = choose|i: int| 0 <= i < ns.len() && ns[i] == x;
        assert((rest + ns)[rest.len() + i] == x);
    }
}

/// A resource that a domain of the table owns (or uses) names that domain
/// among its owners (or users) and never gets the "no domain ownership" (or
/// "no domain usage") reason.
pub proof fn law_domain_members_are_listed(
    store: Store,
    r: Resource,
    j: int,
    m: int,
)
    requires
        0 <= j < store.domain_members@.len(),
        0 <= m < store.domains@.len(),
        store.domain_members@[j].resource_id@ == r.id@,
        store.domains@[m].id@ == store.domain_members@[j].domain_id@,
    ensures
        store.domain_members@[j].relationship == RelationshipType::Owns ==> owning_domain_names(
            store,
            r.id@,
        ).contains(store.domains@[m].name@) && !orphan_reasons(store, r.id@).contains(
            AnalysisReason::NoDomainOwnership,
        ),
        store.domain_members@[j].relationship == RelationshipType::Uses ==> using_domain_names(
            store,
            r.id@,
        ).contains(store.domains@[m].name@) && !orphan_reasons(store, r.id@).contains(
            AnalysisReason::NoDomainUsage,
        ),
{
    let id = r.id@;
    let kind = store.domain_members@[j].relationship;
    let x = store.domains@[m].name@;
    lemma_member_names_contain(store.domain_members@, store.domains@, id, kind, j, m);
    let names = member_domain_names(store.domain_members@, store.domains@, id, kind);
    lemma_stable_sort_contains(names, text_order(), x);
    let a = reason_if(dependent_names(store, id).len() == 0, AnalysisReason::NoDependents);
    let b = reason_if(owning_domain_names(store, id).len() == 0, AnalysisReason::NoDomainOwnership);
    let c = reason_if(using_domain_names(store, id).len() == 0, AnalysisReason::NoDomainUsage);
    let o = orphan_reasons(store, id);
    assert(o =~= a + b + c);
    if kind == RelationshipType::Owns {
        assert(owning_domain_names(store, id).len() > 0);
        assert forall|k: int| 0 <= k < o.len() implies o[k] != AnalysisReason::NoDomainOwnership by {
            if k < a.len() {
                assert(o[k] == a[k]);
            } else {
                assert(o[k] == c[k - a.len()]);
            }
        }
    }
    if kind == RelationshipType::Uses {
        assert(using_domain_names(store, id).len() > 0);
        assert forall|k: int| 0 <= k < o.len() implies o[k] != AnalysisReason::NoDomainUsage by {
            if k < a.len() {
                assert(o[k] == a[k]);
            } else if k < a.len() + b.len() {
                assert(o[k] == b[k - a.len()]);
            }
        }
    }
}

/// A resource that depends on another never gets the "no dependencies"
/// reason and is never reported unused.
pub proof fn law_dependencies_are_seen(store: Store, r: Resource, j: int)
    requires
        0 <= j < store.relationships@.len(),
        store.relationships@[j].source_id@ == r.id@,
        store.relationships@[j].relationship_type == RelationshipType::DependsOn,
    ensures
        !unused_reasons(store, r.id@).contains(AnalysisReason::NoDependencies),
        !unused_candidates(store).contains(r),
{
    let id = r.id@;
    let rels = store.relationships@;
    assert(has_relationship_from(rels, id, RelationshipType::DependsOn));
    let o = orphan_reasons(store, id);
    let e = reason_if(
        !(has_relationship_from(rels, id, RelationshipType::Provides) || has_relationship_from(
            rels,
            id,
            RelationshipType::Uses,
        )),
        AnalysisReason::NoInteractions,
    );
    let u = unused_reasons(store, id);
    assert(u =~= o + e);
    assert(o.len() <= 3);
    assert forall|k: int| 0 <= k < u.len() implies u[k] != AnalysisReason::NoDependencies by {
        if k >= o.len() {
            assert(u[k] == e[k - o.len()]);
        }
    }
    let upred = |x: Resource|
        x.resource_type != ResourceType::Repository && unused_reasons(store, x.id@).len() >= 5;
    if unused_candidates(store).contains(r) {
        let i = choose|i: int| 0 <= i < unused_candidates(store).len() && unused_candidates(store)[i] == r;
        store.resources@.lemma_filter_pred(upred, i);
    }
}

/// Repositories are containers, not removable units: they are reported
/// neither orphaned nor unused.
pub proof fn law_repositories_are_never_reported(store: Store, r: Resource)
    requires
        r.resource_type == ResourceType::Repository,
    ensures
        !orphan_candidates(store).contains(r),
        !unused_candidates(store).contains(r),
{
    let upred = |x: Resource|
        x.resource_type != ResourceType::Repository && unused_reasons(store, x.id@).len() >= 5;
    let opred = |x: Resource|
        x.resource_type != ResourceType::Repository && orphan_reasons(store, x.id@).len() > 0;
    if unused_candidates(store).contains(r) {
        let i = choose|i: int| 0 <= i < unused_candidates(store).len() && unused_candidates(store)[i] == r;
        store.resources@.lemma_filter_pred(upred, i);
    }
    if orphan_candidates(store).contains(r) {
        let i = choose|i: int| 0 <= i < orphan_candidates(store).len() && orphan_candidates(store)[i] == r;
        store.resources@.lemma_filter_pred(opred, i);
    }
}

/// Every unused resource is also orphaned: having all five unused reasons
/// means having all three orphan reasons.
pub proof fn law_unused_resources_are_orphaned(store: Store, r: Resource)
    requires
        unused_candidates(store).contains(r),
    ensures
        orphan_candidates(store).contains(r),
        orphan_reasons(store, r.id@) == seq![
            AnalysisReason::NoDependents,
            AnalysisReason::NoDomainOwnership,
            AnalysisReason::NoDomainUsage,
        ],
{
    let upred = |x: Resource|
        x.resource_type != ResourceType::Repository && unused_reasons(store, x.id@).len() >= 5;
    let opred = |x: Resource|
        x.resource_type != ResourceType::Repository && orphan_reasons(store, x.id@).len() > 0;
    store.resources@.lemma_filter_contains_rev(upred, r);
    let i = choose|i: int| 0 <= i < unused_candidates(store).len() && unused_candidates(store)[i] == r;
    store.resources@.lemma_filter_pred(upred, i);
    assert(orphan_reasons(store, r.id@) =~= seq![
        AnalysisReason::NoDependents,
        AnalysisReason::NoDomainOwnership,
        AnalysisReason::NoDomainUsage,
    ]);
    let k = choose|k: int| 0 <= k < store.resources@.len() && store.resources@[k] == r;
    store.resources@.lemma_filter_contains(opred, k);
}

/// The names an analysis lists come sorted, and are exactly the names the
/// relationships and memberships give.
pub proof fn law_analysis_names_sorted(store: Store, id: Seq<char>)
    ensures
        sorted_by(dependent_names(store, id), text_order()),
        sorted_by(owning_domain_names(store, id), text_order()),
        sorted_by(using_domain_names(store, id), text_order()),
        sorted_by(associated_services(store, id), text_order()),
        dependent_names(store, id).to_multiset() == source_names(
            store.relationships@,
            store.resources@,
            id,
            RelationshipType::DependsOn,
            None,
        ).to_multiset(),
{
    lemma_text_order_total_preorder();
    let deps = source_names(store.relationships@, store.resources@, id, RelationshipType::DependsOn, None);
    lemma_stable_sort_sorted(deps, text_order());
    lemma_stable_sort_permutation(deps, text_order());
    lemma_stable_sort_sorted(
        member_domain_names(store.domain_members@, store.domains@, id, RelationshipType::Owns),
        text_order(),
    );
    lemma_stable_sort_sorted(
        member_domain_names(store.domain_members@, store.domains@, id, RelationshipType::Uses),
        text_order(),
    );
    lemma_stable_sort_sorted(
        source_names(
            store.relationships@,
            store.resources@,
            id,
            RelationshipType::ComesFrom,
            Some(ResourceType::Service),
        ),
        text_order(),
    );
}

} // verus!
