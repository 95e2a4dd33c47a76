//! How a resource was introduced to the system.
use vstd::prelude::*;

use crate::errors::ChapeauError;

verus! {

/// How a resource was installed or introduced to the system.
#[derive(Debug, Clone, PartialEq, Eq)]
pub struct Provenance {
    /// ID of the resource this provenance belongs to.
    pub resource_id: String,
    /// How it was installed (e.g. "dnf", "flatpak", "manual").
    pub installation_method: Option<String>,
    /// ISO-8601 timestamp of installation.
    pub installation_time: Option<String>,
    /// DNF transaction ID, if applicable.
    pub transaction_id: Option<String>,
    /// Source kind (e.g. "repository", "url").
    pub source_type: Option<String>,
    /// Source identifier (e.g. repo name, URL).
    pub source_id: Option<String>,
    /// When this resource was "adopted" into a domain.
    pub adopted_at: Option<String>,
}

impl Provenance {
    /// Create a new Provenance for the given resource.
    pub fn new(resource_id: String) -> (p: Self)
        ensures
            p.resource_id == resource_id,
            p.installation_method is None,
            p.installation_time is None,
            p.transaction_id is None,
            p.source_type is None,
            p.source_id is None,
            p.adopted_at is None,
    {
        Provenance {
            resource_id,
            installation_method: None,
            installation_time: None,
            transaction_id: None,
            source_type: None,
            source_id: None,
            adopted_at: None,
        }
    }

    /// Validate the provenance fields.
    pub fn validate(&self) -> (r: Result<(), ChapeauError>)
        ensures
            r is Ok <==> self.resource_id@.len() > 0,
            r matches Err(e) ==> e matches ChapeauError::Validation(m) && m@
                == "provenance resource_id must not be empty"@,
    {
        if self.resource_id.as_str().is_empty() {
            return Err(
                ChapeauError::Validation(
                    String::from_str("provenance resource_id must not be empty"),
                ),
            );
        }
        Ok(())
    }
}

} // verus!
