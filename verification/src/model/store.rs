//! The recorded knowledge base as tables: resources, relationships, domains
//! and their members, roots and observations. The application loads them
//! from the database; every query of the library is a function of them.
use vstd::prelude::*;

use crate::model::domain::Domain;
use crate::model::observation::Observation;
use crate::model::relationship::{Relationship, RelationshipType};
use crate::model::resource::{Resource, ResourceType};
use crate::model::root::{Root, RootSource};
use crate::model::root_policy::string_views;
use crate::seqs::{first_match, lemma_first_match_at, lemma_first_match_none};
use crate::text::str_eq;

verus! {

/// A resource's membership in a domain: the domain owns or uses it.
#[derive(Debug, Clone, PartialEq, Eq)]
pub struct DomainMember {
    pub domain_id: String,
    pub resource_id: String,
    pub relationship: RelationshipType,
}

/// The tables of the knowledge base.
#[derive(Debug, Clone)]
pub struct Store {
    pub resources: Vec<Resource>,
    pub relationships: Vec<Relationship>,
    pub domains: Vec<Domain>,
    pub domain_members: Vec<DomainMember>,
    pub roots: Vec<Root>,
    pub observations: Vec<Observation>,
}

/// The native ids of the resources whose id is `id`, restricted to one
/// type when `only` names it, in table order.
pub open spec fn native_ids_with_id(
    resources: Seq<Resource>,
    id: Seq<char>,
    only: Option<ResourceType>,
) -> Seq<Seq<char>>
    decreases resources.len(),
{
    if resources.len() == 0 {
        Seq::<Seq<char>>::empty()
    } else {
        let rest = native_ids_with_id(resources.drop_last(), id, only);
        let r = resources.last();
        if r.id@ == id && match only {
            Some(t) => r.resource_type == t,
            None => true,
        } {
            rest.push(r.native_id@)
        } else {
            rest
        }
    }
}

/// The native ids of the sources of the relationships of kind `kind` that
/// point at `target`: the join of the relationships with the resources on
/// the source id, in table order.
pub open spec fn source_names(
    rels: Seq<Relationship>,
    resources: Seq<Resource>,
    target: Seq<char>,
    kind: RelationshipType,
    only: Option<ResourceType>,
) -> Seq<Seq<char>>
    decreases rels.len(),
{
    if rels.len() == 0 {
        Seq::<Seq<char>>::empty()
    } else {
        let rest = source_names(rels.drop_last(), resources, target, kind, only);
        let r = rels.last();
        if r.target_id@ == target && r.relationship_type == kind {
            rest + native_ids_with_id(resources, r.source_id@, only)
        } else {
            rest
        }
    }
}

/// The names of the domains whose id is `id`, in table order.
pub open spec fn domain_names_with_id(domains: Seq<Domain>, id: Seq<char>) -> Seq<Seq<char>>
    decreases domains.len(),
{
    if domains.len() == 0 {
        Seq::<Seq<char>>::empty()
    } else {
        let rest = domain_names_with_id(domains.drop_last(), id);
        if domains.last().id@ == id {
            rest.push(domains.last().name@)
        } else {
            rest
        }
    }
}

/// The names of the domains that relate to `resource_id` as `kind`: the
/// join of the members with the domains on the domain id, in table order.
pub open spec fn member_domain_names(
    members: Seq<DomainMember>,
    domains: Seq<Domain>,
    resource_id: Seq<char>,
    kind: RelationshipType,
) -> Seq<Seq<char>>
    decreases members.len(),
{
    if members.len() == 0 {
        Seq::<Seq<char>>::empty()
    } else {
        let rest = member_domain_names(members.drop_last(), domains, resource_id, kind);
        let m = members.last();
        if m.resource_id@ == resource_id && m.relationship == kind {
            rest + domain_names_with_id(domains, m.domain_id@)
        } else {
            rest
        }
    }
}

/// The first resource with the given native id.
pub open spec fn find_by_native_id(resources: Seq<Resource>, native_id: Seq<char>) -> Option<
    Resource,
> {
    first_match(resources, |r: Resource| r.native_id@ == native_id)
}

/// The first root recorded for the resource with id `resource_id`.
pub open spec fn root_of(roots: Seq<Root>, resource_id: Seq<char>) -> Option<Root> {
    first_match(roots, |r: Root| r.resource_id@ == resource_id)
}

/// Some relationship of kind `kind` points at `target`.
pub open spec fn has_relationship_to(
    rels: Seq<Relationship>,
    target: Seq<char>,
    kind: RelationshipType,
) -> bool {
    exists|i: int|
        0 <= i < rels.len() && (#[trigger] rels[i]).target_id@ == target
            && rels[i].relationship_type == kind
}

/// Some relationship of kind `kind` starts at `source`.
pub open spec fn has_relationship_from(
    rels: Seq<Relationship>,
    source: Seq<char>,
    kind: RelationshipType,
) -> bool {
    exists|i: int|
        0 <= i < rels.len() && (#[trigger] rels[i]).source_id@ == source
            && rels[i].relationship_type == kind
}

/// Some member row relates `resource_id` to a domain as `kind`.
pub open spec fn has_member(
    members: Seq<DomainMember>,
    resource_id: Seq<char>,
    kind: RelationshipType,
) -> bool {
    exists|i: int|
        0 <= i < members.len() && (#[trigger] members[i]).resource_id@ == resource_id
            && members[i].relationship == kind
}

/// Append the native ids of the resources with id `id` (of type `only`,
/// when named).
fn push_native_ids(
    resources: &Vec<Resource>,
    id: &str,
    only: Option<ResourceType>,
    out: &mut Vec<String>,
)
    ensures
        string_views(final(out)@) == string_views(old(out)@) + native_ids_with_id(
            resources@,
            id@,
            only,
        ),
{
    let ghost start = string_views(out@);
    let mut i: usize = 0;
    while i < resources.len()
        invariant
            i <= resources.len(),
            string_views(out@) == start + native_ids_with_id(resources@.take(i as int), id@, only),
        decreases resources.len() - i,
    {
        let ghost t = resources@.take(i + 1);
        assert(t.drop_last() =~= resources@.take(i as int));
        let r = &resources[i];
        let type_ok = match only {
            Some(t) => r.resource_type == t,
            None => true,
        };
        if str_eq(r.id.as_str(), id) && type_ok {
            let ghost before = string_views(out@);
            let n = r.native_id.clone();
            out.push(n);
            assert(string_views(out@) =~= before.push(r.native_id@));
        }
        i = i + 1;
    }
    assert(resources@.take(resources.len() as int) =~= resources@);
}

/// Append the names of the domains with id `id`.
fn push_domain_names(domains: &Vec<Domain>, id: &str, out: &mut Vec<String>)
    ensures
        string_views(final(out)@) == string_views(old(out)@) + domain_names_with_id(domains@, id@),
{
    let ghost start = string_views(out@);
    let mut i: usize = 0;
    while i < domains.len()
        invariant
            i <= domains.len(),
            string_views(out@) == start + domain_names_with_id(domains@.take(i as int), id@),
        decreases domains.len() - i,
    {
        let ghost t = domains@.take(i + 1);
        assert(t.drop_last() =~= domains@.take(i as int));
        let d = &domains[i];
        if str_eq(d.id.as_str(), id) {
            let ghost before = string_views(out@);
            let n = d.name.clone();
            out.push(n);
            assert(string_views(out@) =~= before.push(d.name@));
        }
        i = i + 1;
    }
    assert(domains@.take(domains.len() as int) =~= domains@);
}

impl Store {
    /// The first resource with the given native id.
    pub fn find_by_native_id(&self, native_id: &str) -> (r: Option<&Resource>)
        ensures
            match r {
                Some(res) => find_by_native_id(self.resources@, native_id@) == Some(*res),
                None => find_by_native_id(self.resources@, native_id@) is None,
            },
    {
        let ghost pred = |r: Resource| r.native_id@ == native_id@;
        let mut i: usize = 0;
        assert(self.resources@.take(0) =~= Seq::<Resource>::empty());
        while i < self.resources.len()
            invariant
                i <= self.resources@.len(),
                pred == (|r: Resource| r.native_id@ == native_id@),
                first_match(self.resources@.take(i as int), pred) is None,
            decreases self.resources.len() - i,
        {
            if str_eq(self.resources[i].native_id.as_str(), native_id) {
                proof {
                    lemma_first_match_at(self.resources@, pred, i as int);
                }
                return Some(&self.resources[i]);
            }
            proof {
                lemma_first_match_none(self.resources@, pred, i as int);
            }
            i = i + 1;
        }
        assert(self.resources@.take(self.resources@.len() as int) =~= self.resources@);
        None
    }

    /// How the root of the resource with id `resource_id` was established,
    /// when the resource has one.
    pub fn root_source_of(&self, resource_id: &str) -> (r: Option<RootSource>)
        ensures
            r == match root_of(self.roots@, resource_id@) {
                Some(root) => Some(root.source),
                None => None::<RootSource>,
            },
    {
        let ghost pred = |r: Root| r.resource_id@ == resource_id@;
        let mut i: usize = 0;
        assert(self.roots@.take(0) =~= Seq::<Root>::empty());
        while i < self.roots.len()
            invariant
                i <= self.roots@.len(),
                pred == (|r: Root| r.resource_id@ == resource_id@),
                first_match(self.roots@.take(i as int), pred) is None,
            decreases self.roots.len() - i,
        {
            if str_eq(self.roots[i].resource_id.as_str(), resource_id) {
                proof {
                    lemma_first_match_at(self.roots@, pred, i as int);
                }
                return Some(self.roots[i].source);
            }
            proof {
                lemma_first_match_none(self.roots@, pred, i as int);
            }
            i = i + 1;
        }
        assert(self.roots@.take(self.roots@.len() as int) =~= self.roots@);
        None
    }

    /// The native ids of the sources of the relationships of kind `kind`
    /// that point at `target`, restricted to resources of type `only` when
    /// named, in table order.
    pub fn source_names(&self, target: &str, kind: RelationshipType, only: Option<ResourceType>) -> (r:
        Vec<String>)
        ensures
            string_views(r@) == source_names(
                self.relationships@,
                self.resources@,
                target@,
                kind,
                only,
            ),
    {
        let ghost rels = self.relationships@;
        let mut out: Vec<String> = Vec::new();
        let mut i: usize = 0;
        while i < self.relationships.len()
            invariant
                i <= self.relationships.len(),
                rels == self.relationships@,
                string_views(out@) == source_names(
                    rels.take(i as int),
                    self.resources@,
                    target@,
                    kind,
                    only,
                ),
            decreases self.relationships.len() - i,
        {
            let ghost t = rels.take(i + 1);
            assert(t.drop_last() =~= rels.take(i as int));
            let rel = &self.relationships[i];
            if str_eq(rel.target_id.as_str(), target) && rel.relationship_type == kind {
                push_native_ids(&self.resources, rel.source_id.as_str(), only, &mut out);
            }
            i = i + 1;
        }
        assert(rels.take(rels.len() as int) =~= rels);
        out
    }

    /// The names of the domains that relate to `resource_id` as `kind`, in
    /// table order.
    pub fn member_domain_names(&self, resource_id: &str, kind: RelationshipType) -> (r: Vec<
        String,
    >)
        ensures
            string_views(r@) == member_domain_names(
                self.domain_members@,
                self.domains@,
                resource_id@,
                kind,
            ),
    {
        let ghost ms = self.domain_members@;
        let mut out: Vec<String> = Vec::new();
        let mut i: usize = 0;
        while i < self.domain_members.len()
            invariant
                i <= self.domain_members.len(),
                ms == self.domain_members@,
                string_views(out@) == member_domain_names(
                    ms.take(i as int),
                    self.domains@,
                    resource_id@,
                    kind,
                ),
            decreases self.domain_members.len() - i,
        {
            let ghost t = ms.take(i + 1);
            assert(t.drop_last() =~= ms.take(i as int));
            let m = &self.domain_members[i];
            if str_eq(m.resource_id.as_str(), resource_id) && m.relationship == kind {
                push_domain_names(&self.domains, m.domain_id.as_str(), &mut out);
            }
            i = i + 1;
        }
        assert(ms.take(ms.len() as int) =~= ms);
        out
    }

    /// Whether some relationship of kind `kind` points at `target`.
    pub fn has_relationship_to(&self, target: &str, kind: RelationshipType) -> (r: bool)
        ensures
            r == has_relationship_to(self.relationships@, target@, kind),
    {
        let mut i: usize = 0;
        while i < self.relationships.len()
            invariant
                i <= self.relationships.len(),
                forall|k: int|
                    0 <= k < i ==> !((#[trigger] self.relationships@[k]).target_id@ == target@
                        && self.relationships@[k].relationship_type == kind),
            decreases self.relationships.len() - i,
        {
            let rel = &self.relationships[i];
            if str_eq(rel.target_id.as_str(), target) && rel.relationship_type == kind {
                return true;
            }
            i = i + 1;
        }
        false
    }

    /// Whether some relationship of kind `kind` starts at `source`.
    pub fn has_relationship_from(&self, source: &str, kind: RelationshipType) -> (r: bool)
        ensures
            r == has_relationship_from(self.relationships@, source@, kind),
    {
        let mut i: usize = 0;
        while i < self.relationships.len()
            invariant
                i <= self.relationships.len(),
                forall|k: int|
                    0 <= k < i ==> !((#[trigger] self.relationships@[k]).source_id@ == source@
                        && self.relationships@[k].relationship_type == kind),
            decreases self.relationships.len() - i,
        {
            let rel = &self.relationships[i];
            if str_eq(rel.source_id.as_str(), source) && rel.relationship_type == kind {
                return true;
            }
            i = i + 1;
        }
        false
    }

    /// Whether some member row relates `resource_id` to a domain as `kind`.
    pub fn has_member(&self, resource_id: &str, kind: RelationshipType) -> (r: bool)
        ensures
            r == has_member(self.domain_members@, resource_id@, kind),
    {
        let mut i: usize = 0;
        while i < self.domain_members.len()
            invariant
                i <= self.domain_members.len(),
                forall|k: int|
                    0 <= k < i ==> !((#[trigger] self.domain_members@[k]).resource_id@
                        == resource_id@ && self.domain_members@[k].relationship == kind),
            decreases self.domain_members.len() - i,
        {
            let m = &self.domain_members[i];
            if str_eq(m.resource_id.as_str(), resource_id) && m.relationship == kind {
                return true;
            }
            i = i + 1;
        }
        false
    }
}

} // verus!
