//! The core model: resources, relationships, domains, roots and the policies
//! that classify them.
pub mod analysis;
pub mod domain;
pub mod explanation;
pub mod graph;
pub mod provenance;
pub mod relationship;
pub mod resource;

pub use domain::Domain;
pub use explanation::Explanation;
pub use provenance::Provenance;
pub use relationship::{Relationship, RelationshipOrigin, RelationshipType};
pub use resource::{Resource, ResourceType};
pub mod observation;
pub mod planner;
pub mod root;

pub use observation::Observation;
pub use root::{Root, RootSource};
pub mod root_policy;
pub mod store;

pub use root_policy::PackageRole;
