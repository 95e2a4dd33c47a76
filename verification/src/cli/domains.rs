//! What the `domains` commands read and decide: finding a domain by name,
//! the kind of a new membership, the memberships of a resource in a domain,
//! and the members each domain lists.
use vstd::prelude::*;

use crate::model::analysis::copy_resource;
use crate::model::domain::Domain;
use crate::model::relationship::RelationshipType;
use crate::model::resource::Resource;
use crate::model::store::{DomainMember, Store};
use crate::seqs::{first_match, lemma_first_match_at, lemma_first_match_none};
use crate::text::str_eq;

verus! {

/// The first resource with id `id`.
pub open spec fn resource_by_id(resources: Seq<Resource>, id: Seq<char>) -> Option<Resource> {
    first_match(resources, |r: Resource| r.id@ == id)
}

/// The first domain named `name`.
pub open spec fn domain_named(domains: Seq<Domain>, name: Seq<char>) -> Option<Domain> {
    first_match(domains, |d: Domain| d.name@ == name)
}

/// The kinds of the memberships of resource `resource_id` in domain
/// `domain_id`, in table order.
pub open spec fn member_kinds(
    members: Seq<DomainMember>,
    domain_id: Seq<char>,
    resource_id: Seq<char>,
) -> Seq<RelationshipType>
    decreases members.len(),
{
    if members.len() == 0 {
        Seq::<RelationshipType>::empty()
    } else {
        let rest = member_kinds(members.drop_last(), domain_id, resource_id);
        let m = members.last();
        if m.domain_id@ == domain_id && m.resource_id@ == resource_id {
            rest.push(m.relationship)
        } else {
            rest
        }
    }
}

/// The members of domain `domain_id`, each resource with the kind of its
/// membership, in table order; a membership of a resource that is not in
/// the table is left out.
pub open spec fn domain_listing_of(
    members: Seq<DomainMember>,
    resources: Seq<Resource>,
    domain_id: Seq<char>,
) -> Seq<(Resource, RelationshipType)>
    decreases members.len(),
{
    if members.len() == 0 {
        Seq::<(Resource, RelationshipType)>::empty()
    } else {
        let rest = domain_listing_of(members.drop_last(), resources, domain_id);
        let m = members.last();
        if m.domain_id@ == domain_id {
            match resource_by_id(resources, m.resource_id@) {
                Some(r) => rest.push((r, m.relationship)),
                None => rest,
            }
        } else {
            rest
        }
    }
}

/// The domain named `name`.
pub fn find_domain<'a>(store: &'a Store, name: &str) -> (r: Option<&'a Domain>)
    ensures
        match r {
            Some(d) => domain_named(store.domains@, name@) == Some(*d),
            None => domain_named(store.domains@, name@) is None,
        },
{
    let ghost pred = |d: Domain| d.name@ == name@;
    let mut i: usize = 0;
    assert(store.domains@.take(0) =~= Seq::<Domain>::empty());
    while i < store.domains.len()
        invariant
            i <= store.domains@.len(),
            pred == (|d: Domain| d.name@ == name@),
            first_match(store.domains@.take(i as int), pred) is None,
        decreases store.domains.len() - i,
    {
        if str_eq(store.domains[i].name.as_str(), name) {
            proof {
                lemma_first_match_at(store.domains@, pred, i as int);
            }
            return Some(&store.domains[i]);
        }
        proof {
            lemma_first_match_none(store.domains@, pred, i as int);
        }
        i = i + 1;
    }
    assert(store.domains@.take(store.domains@.len() as int) =~= store.domains@);
    None
}

/// The kind of a new membership: `owns` when asked for, else `uses`.
pub fn membership_kind(owns: bool) -> (k: RelationshipType)
    ensures
        k == if owns {
            RelationshipType::Owns
        } else {
            RelationshipType::Uses
        },
{
    if owns {
        RelationshipType::Owns
    } else {
        RelationshipType::Uses
    }
}

/// The kinds of the memberships of a resource in a domain, in table order.
pub fn membership_kinds(store: &Store, domain_id: &str, resource_id: &str) -> (r: Vec<
    RelationshipType,
>)
    ensures
        r@ == member_kinds(store.domain_members@, domain_id@, resource_id@),
{
    let mut r: Vec<RelationshipType> = Vec::new();
    let mut i: usize = 0;
    while i < store.domain_members.len()
        invariant
            i <= store.domain_members@.len(),
            r@ == member_kinds(store.domain_members@.take(i as int), domain_id@, resource_id@),
        decreases store.domain_members.len() - i,
    {
        let ghost t = store.domain_members@.take(i + 1);
        assert(t.drop_last() =~= store.domain_members@.take(i as int));
        let m = &store.domain_members[i];
        if str_eq(m.domain_id.as_str(), domain_id) && str_eq(m.resource_id.as_str(), resource_id) {
            r.push(m.relationship);
        }
        i = i + 1;
    }
    assert(store.domain_members@.take(i as int) =~= store.domain_members@);
    r
}

/// Whether a resource already is a member of a domain with the given kind.
pub fn has_membership(store: &Store, domain_id: &str, resource_id: &str, kind: RelationshipType) -> (r:
    bool)
    ensures
        r == member_kinds(store.domain_members@, domain_id@, resource_id@).contains(kind),
{
    let kinds = membership_kinds(store, domain_id, resource_id);
    let mut i: usize = 0;
    while i < kinds.len()
        invariant
            i <= kinds@.len(),
            kinds@ == member_kinds(store.domain_members@, domain_id@, resource_id@),
            forall|k: int| 0 <= k < i ==> kinds@[k] != kind,
        decreases kinds.len() - i,
    {
        if kinds[i] == kind {
            assert(kinds@[i as int] == kind);
            return true;
        }
        i = i + 1;
    }
    false
}

/// The resource with id `id`.
pub(crate) fn resource_with(resources: &Vec<Resource>, id: &str) -> (r: Option<Resource>)
    ensures
        r == resource_by_id(resources@, id@),
{
    let ghost pred = |x: Resource| x.id@ == id@;
    let mut i: usize = 0;
    assert(resources@.take(0) =~= Seq::<Resource>::empty());
    while i < resources.len()
        invariant
            i <= resources@.len(),
            pred == (|x: Resource| x.id@ == id@),
            first_match(resources@.take(i as int), pred) is None,
        decreases resources.len() - i,
    {
        if str_eq(resources[i].id.as_str(), id) {
            proof {
                lemma_first_match_at(resources@, pred, i as int);
            }
            return Some(copy_resource(&resources[i]));
        }
        proof {
            lemma_first_match_none(resources@, pred, i as int);
        }
        i = i + 1;
    }
    assert(resources@.take(resources@.len() as int) =~= resources@);
    None
}

/// The members of a domain, each resource with the kind of its membership,
/// in table order.
pub fn domain_listing(store: &Store, domain_id: &str) -> (r: Vec<(Resource, RelationshipType)>)
    ensures
        r@ == domain_listing_of(store.domain_members@, store.resources@, domain_id@),
{
    let mut r: Vec<(Resource, RelationshipType)> = Vec::new();
    let mut i: usize = 0;
    while i < store.domain_members.len()
        invariant
            i <= store.domain_members@.len(),
            r@ == domain_listing_of(store.domain_members@.take(i as int), store.resources@, domain_id@),
        decreases store.domain_members.len() - i,
    {
        let ghost t = store.domain_members@.take(i + 1);
        assert(t.drop_last() =~= store.domain_members@.take(i as int));
        let m = &store.domain_members[i];
        if str_eq(m.domain_id.as_str(), domain_id) {
            match resource_with(&store.resources, m.resource_id.as_str()) {
                Some(res) => {
                    r.push((res, m.relationship));
                },
                None => {},
            }
        }
        i = i + 1;
    }
    assert(store.domain_members@.take(i as int) =~= store.domain_members@);
    r
}

} // verus!
