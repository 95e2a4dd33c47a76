//! Resources: the trackable components of a system.
use vstd::prelude::*;

use crate::errors::ChapeauError;
use crate::stamp::{new_uuid, now_rfc3339};
use crate::text::str_eq;

verus! {

/// The type of a resource, corresponding to the system component it represents.
#[derive(Debug, Clone, Copy, PartialEq, Eq, Hash, Structural)]
pub enum ResourceType {
    /// An RPM package managed by DNF.
    Package,
    /// A Flatpak application.
    Flatpak,
    /// A systemd service unit.
    Service,
    /// A DNF or RPM repository.
    Repository,
}

impl ResourceType {
    /// The canonical text of the type.
    pub open spec fn text(self) -> Seq<char> {
        match self {
            ResourceType::Package => "package"@,
            ResourceType::Flatpak => "flatpak"@,
            ResourceType::Service => "service"@,
            ResourceType::Repository => "repository"@,
        }
    }

    /// The text names some resource type.
    pub open spec fn is_type_text(s: Seq<char>) -> bool {
        exists|t: ResourceType| t.text() == s
    }

    /// Return the canonical string representation.
    pub fn as_str(&self) -> (s: &'static str)
        ensures
            s@ == self.text(),
    {
        match self {
            ResourceType::Package => "package",
            ResourceType::Flatpak => "flatpak",
            ResourceType::Service => "service",
            ResourceType::Repository => "repository",
        }
    }

    /// The canonical text, as `to_string` gives it.
    pub fn to_string(&self) -> (s: String)
        ensures
            s@ == self.text(),
    {
        String::from_str(self.as_str())
    }

    /// Parse the canonical text of a type.
    pub fn from_str(s: &str) -> (r: Result<ResourceType, ChapeauError>)
        ensures
            r matches Ok(t) ==> t.text() == s@,
            r is Err <==> !Self::is_type_text(s@),
            r matches Err(e) ==> e matches ChapeauError::InvalidResourceType(m) && m@ == s@,
    {
        if str_eq(s, "package") {
            let t = ResourceType::Package;
            assert(t.text() == s@);
            Ok(t)
        } else if str_eq(s, "flatpak") {
            let t = ResourceType::Flatpak;
            assert(t.text() == s@);
            Ok(t)
        } else if str_eq(s, "service") {
            let t = ResourceType::Service;
            assert(t.text() == s@);
            Ok(t)
        } else if str_eq(s, "repository") {
            let t = ResourceType::Repository;
            assert(t.text() == s@);
            Ok(t)
        } else {
            assert forall|t: ResourceType| t.text() != s@ by {
                match t {
                    ResourceType::Package => {},
                    ResourceType::Flatpak => {},
                    ResourceType::Service => {},
                    ResourceType::Repository => {},
                }
            }
            Err(ChapeauError::InvalidResourceType(String::from_str(s)))
        }
    }

    /// Parse from a string, returning an error on unknown variants.
    pub fn parse(s: &str) -> (r: Result<ResourceType, ChapeauError>)
        ensures
            r matches Ok(t) ==> t.text() == s@,
            r is Err <==> !Self::is_type_text(s@),
            r matches Err(e) ==> e matches ChapeauError::InvalidResourceType(m) && m@ == s@,
    {
        Self::from_str(s)
    }

    /// All known resource types.
    pub fn all() -> (v: &'static [ResourceType])
        ensures
            v@ == seq![
                ResourceType::Package,
                ResourceType::Flatpak,
                ResourceType::Service,
                ResourceType::Repository,
            ],
    {
        &[ResourceType::Package, ResourceType::Flatpak, ResourceType::Service, ResourceType::Repository]
    }
}

/// The text of a resource type is one that parsing accepts, and different
/// types have different texts, so parsing the text of a type gives that type
/// back.
pub proof fn law_resource_type_text_roundtrip(a: ResourceType, b: ResourceType)
    ensures
        ResourceType::is_type_text(a.text()),
        a.text() == b.text() ==> a == b,
{
    reveal_strlit("package");
    reveal_strlit("flatpak");
    reveal_strlit("service");
    reveal_strlit("repository");
    if a != b && a.text() == b.text() {
        assert(a.text()[0] == b.text()[0]);
        assert(a.text().len() == b.text().len());
        assert(a.text()[1] == b.text()[1]);
    }
}

impl std::str::FromStr for ResourceType {
    type Err = ChapeauError;

    fn from_str(s: &str) -> (r: Result<ResourceType, ChapeauError>)
        ensures
            r matches Ok(t) ==> t.text() == s@,
            r is Err <==> !ResourceType::is_type_text(s@),
            r matches Err(e) ==> e matches ChapeauError::InvalidResourceType(m) && m@ == s@,
    {
        ResourceType::from_str(s)
    }
}

/// A resource in the system — any trackable component.
#[derive(Debug, Clone, PartialEq, Eq)]
pub struct Resource {
    /// Internal UUID.
    pub id: String,
    /// The type of resource.
    pub resource_type: ResourceType,
    /// The native identifier in the source system (e.g. RPM name, systemd unit).
    pub native_id: String,
    /// Optional human-readable name.
    pub display_name: Option<String>,
    /// ISO-8601 creation timestamp.
    pub created_at: String,
    /// ISO-8601 last-update timestamp.
    pub updated_at: String,
}

/// The label of a record: its display name when set, else its native id.
pub open spec fn label_of(display_name: Option<String>, native_id: String) -> Seq<char> {
    match display_name {
        Some(n) => n@,
        None => native_id@,
    }
}

impl Resource {
    /// Create a new Resource with the given fields and timestamps set to now.
    pub fn new(resource_type: ResourceType, native_id: String, display_name: Option<String>) -> (r:
        Self)
        ensures
            r.resource_type == resource_type,
            r.native_id == native_id,
            r.display_name == display_name,
            r.id@.len() == 36,
            r.created_at@.len() > 0,
            r.created_at == r.updated_at,
    {
        let now = now_rfc3339();
        Resource {
            id: new_uuid(),
            resource_type,
            native_id,
            display_name,
            created_at: now.clone(),
            updated_at: now,
        }
    }

    /// The error that `validate` reports, if any.
    pub open spec fn validation_error(&self) -> Option<Seq<char>> {
        if self.id@.len() == 0 {
            Some("resource id must not be empty"@)
        } else if self.native_id@.len() == 0 {
            Some("resource native_id must not be empty"@)
        } else {
            None
        }
    }

    /// Validate the resource fields.
    pub fn validate(&self) -> (r: Result<(), ChapeauError>)
        ensures
            r is Ok <==> self.validation_error() is None,
            r matches Err(e) ==> e matches ChapeauError::Validation(m) && Some(m@)
                == self.validation_error(),
    {
        if self.id.as_str().is_empty() {
            return Err(ChapeauError::Validation(String::from_str("resource id must not be empty")));
        }
        if self.native_id.as_str().is_empty() {
            return Err(
                ChapeauError::Validation(String::from_str("resource native_id must not be empty")),
            );
        }
        Ok(())
    }

    /// Return the display label: display_name if set, else native_id.
    pub fn label(&self) -> (s: &str)
        ensures
            s@ == label_of(self.display_name, self.native_id),
    {
        match &self.display_name {
            Some(n) => n.as_str(),
            None => self.native_id.as_str(),
        }
    }
}

} // verus!
