//! What `dependencies` and `dependents` list: the resources at the other end
//! of a resource's `depends_on` relationships, and how many relationships
//! there are.
use vstd::prelude::*;

use crate::cli::domains::{resource_by_id, resource_with};
use crate::errors::ChapeauError;
use crate::model::relationship::{Relationship, RelationshipType};
use crate::model::resource::Resource;
use crate::model::store::{find_by_native_id, Store};
use crate::text::str_eq;

verus! {

/// The resources a listing shows, and the number of relationships it
/// counted (some may point at a resource no longer in the table).
#[derive(Debug)]
pub struct DependencyListing {
    pub resources: Vec<Resource>,
    pub total: usize,
}

/// Relationship `r` is of kind `kind` and touches `id` as its source when
/// `outgoing`, else as its target.
pub open spec fn touches(r: Relationship, id: Seq<char>, kind: RelationshipType, outgoing: bool) -> bool {
    r.relationship_type == kind && if outgoing {
        r.source_id@ == id
    } else {
        r.target_id@ == id
    }
}

/// The id at the other end of a relationship.
pub open spec fn other_end(r: Relationship, outgoing: bool) -> Seq<char> {
    if outgoing {
        r.target_id@
    } else {
        r.source_id@
    }
}

/// The number of relationships of kind `kind` touching `id`.
pub open spec fn related_count(rels: Seq<Relationship>, id: Seq<char>, kind: RelationshipType, outgoing: bool) -> nat
    decreases rels.len(),
{
    if rels.len() == 0 {
        0
    } else {
        related_count(rels.drop_last(), id, kind, outgoing) + if touches(rels.last(), id, kind, outgoing) {
            1nat
        } else {
            0nat
        }
    }
}

/// The resources at the other end of the relationships of kind `kind`
/// touching `id`, in table order; an end that is not a resource adds
/// nothing.
pub open spec fn related_resources(
    rels: Seq<Relationship>,
    resources: Seq<Resource>,
    id: Seq<char>,
    kind: RelationshipType,
    outgoing: bool,
) -> Seq<Resource>
    decreases rels.len(),
{
    if rels.len() == 0 {
        Seq::<Resource>::empty()
    } else {
        let rest = related_resources(rels.drop_last(), resources, id, kind, outgoing);
        let r = rels.last();
        if touches(r, id, kind, outgoing) {
            match resource_by_id(resources, other_end(r, outgoing)) {
                Some(x) => rest.push(x),
                None => rest,
            }
        } else {
            rest
        }
    }
}

/// The listing of `depends_on` relationships of the resource with native id
/// `name`: its dependencies when `outgoing`, else its dependents.
pub open spec fn listing_of(l: DependencyListing, store: Store, resource: Resource, outgoing: bool) -> bool {
    &&& l.resources@ == related_resources(
        store.relationships@,
        store.resources@,
        resource.id@,
        RelationshipType::DependsOn,
        outgoing,
    )
    &&& l.total == related_count(store.relationships@, resource.id@, RelationshipType::DependsOn, outgoing)
}

fn relationship_touches(r: &Relationship, id: &str, kind: RelationshipType, outgoing: bool) -> (b: bool)
    ensures
        b == touches(*r, id@, kind, outgoing),
{
    r.relationship_type == kind && if outgoing {
        str_eq(r.source_id.as_str(), id)
    } else {
        str_eq(r.target_id.as_str(), id)
    }
}

fn listing(store: &Store, resource: &Resource, outgoing: bool) -> (l: DependencyListing)
    ensures
        listing_of(l, *store, *resource, outgoing),
{
    let kind = RelationshipType::DependsOn;
    let id = resource.id.as_str();
    let mut found: Vec<Resource> = Vec::new();
    let mut total: usize = 0;
    let mut i: usize = 0;
    while i < store.relationships.len()
        invariant
            i <= store.relationships@.len(),
            kind == RelationshipType::DependsOn,
            id@ == resource.id@,
            found@ == related_resources(store.relationships@.take(i as int), store.resources@, id@, kind, outgoing),
            total == related_count(store.relationships@.take(i as int), id@, kind, outgoing),
            total <= i,
        decreases store.relationships.len() - i,
    {
        let ghost t = store.relationships@.take(i + 1);
        assert(t.drop_last() =~= store.relationships@.take(i as int));
        let r = &store.relationships[i];
        if relationship_touches(r, id, kind, outgoing) {
            total = total + 1;
            let there = if outgoing {
                r.target_id.as_str()
            } else {
                r.source_id.as_str()
            };
            match resource_with(&store.resources, there) {
                Some(x) => {
                    found.push(x);
                },
                None => {},
            }
        }
        i = i + 1;
    }
    assert(store.relationships@.take(i as int) =~= store.relationships@);
    DependencyListing { resources: found, total }
}

/// What the resource with native id `name` depends on, or the not-found
/// error.
pub fn dependencies_of(store: &Store, name: &str) -> (r: Result<DependencyListing, ChapeauError>)
    ensures
        match r {
            Ok(l) => find_by_native_id(store.resources@, name@) matches Some(res) && listing_of(
                l,
                *store,
                res,
                true,
            ),
            Err(e) => {
                &&& find_by_native_id(store.resources@, name@) is None
                &&& e matches ChapeauError::ResourceNotFound(m)
                &&& m@ == name@
            },
        },
{
    match store.find_by_native_id(name) {
        Some(res) => Ok(listing(store, res, true)),
        None => Err(ChapeauError::ResourceNotFound(String::from_str(name))),
    }
}

/// What depends on the resource with native id `name`, or the not-found
/// error.
pub fn dependents_of(store: &Store, name: &str) -> (r: Result<DependencyListing, ChapeauError>)
    ensures
        match r {
            Ok(l) => find_by_native_id(store.resources@, name@) matches Some(res) && listing_of(
                l,
                *store,
                res,
                false,
            ),
            Err(e) => {
                &&& find_by_native_id(store.resources@, name@) is None
                &&& e matches ChapeauError::ResourceNotFound(m)
                &&& m@ == name@
            },
        },
{
    match store.find_by_native_id(name) {
        Some(res) => Ok(listing(store, res, false)),
        None => Err(ChapeauError::ResourceNotFound(String::from_str(name))),
    }
}

} // verus!
