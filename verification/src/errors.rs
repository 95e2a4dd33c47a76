//! The library's error type.
use vstd::prelude::*;

verus! {

/// What can go wrong in the library's own logic.
#[derive(Debug, Clone, PartialEq, Eq)]
pub enum ChapeauError {
    /// No resource has the given name.
    ResourceNotFound(String),
    /// No domain has the given name.
    DomainNotFound(String),
    /// The relationship is already recorded.
    RelationshipAlreadyExists,
    /// The text names no resource type.
    InvalidResourceType(String),
    /// The text names no relationship type.
    InvalidRelationshipType(String),
    /// A record breaks one of its rules.
    Validation(String),
    /// A backend failed or gave output that cannot be read.
    Backend(String),
    /// Discovery of system state failed.
    Discovery(String),
}

impl ChapeauError {
    /// The human-readable message of the error.
    pub open spec fn message_view(&self) -> Seq<char> {
        match self {
            ChapeauError::ResourceNotFound(s) => "resource not found: "@ + s@,
            ChapeauError::DomainNotFound(s) => "domain not found: "@ + s@,
            ChapeauError::RelationshipAlreadyExists => "relationship already exists"@,
            ChapeauError::InvalidResourceType(s) => "invalid resource type: "@ + s@,
            ChapeauError::InvalidRelationshipType(s) => "invalid relationship type: "@ + s@,
            ChapeauError::Validation(s) => "validation error: "@ + s@,
            ChapeauError::Backend(s) => "backend error: "@ + s@,
            ChapeauError::Discovery(s) => "discovery error: "@ + s@,
        }
    }

    /// The human-readable message of the error.
    pub fn message(&self) -> (m: String)
        ensures
            m@ == self.message_view(),
    {
        let (prefix, detail): (&str, Option<&String>) = match self {
            ChapeauError::ResourceNotFound(s) => ("resource not found: ", Some(s)),
            ChapeauError::DomainNotFound(s) => ("domain not found: ", Some(s)),
            ChapeauError::RelationshipAlreadyExists => ("relationship already exists", None),
            ChapeauError::InvalidResourceType(s) => ("invalid resource type: ", Some(s)),
            ChapeauError::InvalidRelationshipType(s) => ("invalid relationship type: ", Some(s)),
            ChapeauError::Validation(s) => ("validation error: ", Some(s)),
            ChapeauError::Backend(s) => ("backend error: ", Some(s)),
            ChapeauError::Discovery(s) => ("discovery error: ", Some(s)),
        };
        let mut m = String::from_str(prefix);
        match detail {
            Some(s) => {
                m.append(s.as_str());
            },
            None => {},
        }
        m
    }

    /// The message, as `to_string` gives it.
    pub fn to_string(&self) -> (m: String)
        ensures
            m@ == self.message_view(),
    {
        self.message()
    }
}

} // verus!
