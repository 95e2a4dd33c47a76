//! Directed relationships between resources.
use vstd::prelude::*;

use crate::errors::ChapeauError;
use crate::stamp::{new_uuid, now_rfc3339};
use crate::text::str_eq;

verus! {

/// The semantic type of a relationship between two resources.
#[derive(Debug, Clone, Copy, PartialEq, Eq, Hash, Structural)]
pub enum RelationshipType {
    /// Source requires target to function.
    DependsOn,
    /// Source fulfills or supplies target's interface.
    Provides,
    /// Source has authoritative ownership of target.
    Owns,
    /// Source interacts with or utilizes target.
    Uses,
    /// Source was obtained from or produced by target.
    ComesFrom,
}

impl RelationshipType {
    /// The canonical text of the type.
    pub open spec fn text(self) -> Seq<char> {
        match self {
            RelationshipType::DependsOn => "depends_on"@,
            RelationshipType::Provides => "provides"@,
            RelationshipType::Owns => "owns"@,
            RelationshipType::Uses => "uses"@,
            RelationshipType::ComesFrom => "comes_from"@,
        }
    }

    /// The text names some relationship type.
    pub open spec fn is_type_text(s: Seq<char>) -> bool {
        exists|t: RelationshipType| t.text() == s
    }

    /// Return the canonical string representation.
    pub fn as_str(&self) -> (s: &'static str)
        ensures
            s@ == self.text(),
    {
        match self {
            RelationshipType::DependsOn => "depends_on",
            RelationshipType::Provides => "provides",
            RelationshipType::Owns => "owns",
            RelationshipType::Uses => "uses",
            RelationshipType::ComesFrom => "comes_from",
        }
    }

    /// The canonical text, as `to_string` gives it.
    pub fn to_string(&self) -> (s: String)
        ensures
            s@ == self.text(),
    {
        String::from_str(self.as_str())
    }

    /// Parse the canonical text of a type.
    pub fn from_str(s: &str) -> (r: Result<RelationshipType, ChapeauError>)
        ensures
            r matches Ok(t) ==> t.text() == s@,
            r is Err <==> !Self::is_type_text(s@),
            r matches Err(e) ==> e matches ChapeauError::InvalidRelationshipType(m) && m@ == s@,
    {
        let t = if str_eq(s, "depends_on") {
            RelationshipType::DependsOn
        } else if str_eq(s, "provides") {
            RelationshipType::Provides
        } else if str_eq(s, "owns") {
            RelationshipType::Owns
        } else if str_eq(s, "uses") {
            RelationshipType::Uses
        } else if str_eq(s, "comes_from") {
            RelationshipType::ComesFrom
        } else {
            assert forall|t: RelationshipType| t.text() != s@ by {
                match t {
                    RelationshipType::DependsOn => {},
                    RelationshipType::Provides => {},
                    RelationshipType::Owns => {},
                    RelationshipType::Uses => {},
                    RelationshipType::ComesFrom => {},
                }
            }
            return Err(ChapeauError::InvalidRelationshipType(String::from_str(s)));
        };
        assert(t.text() == s@);
        Ok(t)
    }

    /// Parse from a string, returning an error on unknown variants.
    pub fn parse(s: &str) -> (r: Result<RelationshipType, ChapeauError>)
        ensures
            r matches Ok(t) ==> t.text() == s@,
            r is Err <==> !Self::is_type_text(s@),
            r matches Err(e) ==> e matches ChapeauError::InvalidRelationshipType(m) && m@ == s@,
    {
        Self::from_str(s)
    }

    /// All known relationship types.
    pub fn all() -> (v: &'static [RelationshipType])
        ensures
            v@ == seq![
                RelationshipType::DependsOn,
                RelationshipType::Provides,
                RelationshipType::Owns,
                RelationshipType::Uses,
                RelationshipType::ComesFrom,
            ],
    {
        &[
            RelationshipType::DependsOn,
            RelationshipType::Provides,
            RelationshipType::Owns,
            RelationshipType::Uses,
            RelationshipType::ComesFrom,
        ]
    }
}

/// The text of a relationship type is one that parsing accepts, and
/// different types have different texts, so parsing the text of a type gives
/// that type back.
pub proof fn law_relationship_type_text_roundtrip(a: RelationshipType, b: RelationshipType)
    ensures
        RelationshipType::is_type_text(a.text()),
        a.text() == b.text() ==> a == b,
{
    reveal_strlit("depends_on");
    reveal_strlit("provides");
    reveal_strlit("owns");
    reveal_strlit("uses");
    reveal_strlit("comes_from");
    if a != b && a.text() == b.text() {
        assert(a.text()[0] == b.text()[0]);
        assert(a.text().len() == b.text().len());
    }
}

impl std::str::FromStr for RelationshipType {
    type Err = ChapeauError;

    fn from_str(s: &str) -> (r: Result<RelationshipType, ChapeauError>)
        ensures
            r matches Ok(t) ==> t.text() == s@,
            r is Err <==> !RelationshipType::is_type_text(s@),
            r matches Err(e) ==> e matches ChapeauError::InvalidRelationshipType(m) && m@ == s@,
    {
        RelationshipType::from_str(s)
    }
}

/// Where a relationship originated.
#[derive(Debug, Clone, Copy, PartialEq, Eq, Hash, Structural)]
pub enum RelationshipOrigin {
    /// Discovered from system state (e.g. RPM deps, systemd Wants).
    System,
    /// Created explicitly by the user.
    User,
    /// Computed or inferred (e.g. reverse relationships).
    Derived,
}

impl RelationshipOrigin {
    /// The canonical text of the origin.
    pub open spec fn text(self) -> Seq<char> {
        match self {
            RelationshipOrigin::System => "system"@,
            RelationshipOrigin::User => "user"@,
            RelationshipOrigin::Derived => "derived"@,
        }
    }

    /// The text names some origin.
    pub open spec fn is_origin_text(s: Seq<char>) -> bool {
        exists|t: RelationshipOrigin| t.text() == s
    }

    /// Return the canonical string representation.
    pub fn as_str(&self) -> (s: &'static str)
        ensures
            s@ == self.text(),
    {
        match self {
            RelationshipOrigin::System => "system",
            RelationshipOrigin::User => "user",
            RelationshipOrigin::Derived => "derived",
        }
    }

    /// The canonical text, as `to_string` gives it.
    pub fn to_string(&self) -> (s: String)
        ensures
            s@ == self.text(),
    {
        String::from_str(self.as_str())
    }

    /// Parse the canonical text of an origin.
    pub fn from_str(s: &str) -> (r: Result<RelationshipOrigin, ChapeauError>)
        ensures
            r matches Ok(t) ==> t.text() == s@,
            r is Err <==> !Self::is_origin_text(s@),
            r matches Err(e) ==> e matches ChapeauError::Validation(m) && m@
                == "invalid relationship origin: "@ + s@,
    {
        let t = if str_eq(s, "system") {
            RelationshipOrigin::System
        } else if str_eq(s, "user") {
            RelationshipOrigin::User
        } else if str_eq(s, "derived") {
            RelationshipOrigin::Derived
        } else {
            assert forall|t: RelationshipOrigin| t.text() != s@ by {
                match t {
                    RelationshipOrigin::System => {},
                    RelationshipOrigin::User => {},
                    RelationshipOrigin::Derived => {},
                }
            }
            let mut m = String::from_str("invalid relationship origin: ");
            m.append(s);
            return Err(ChapeauError::Validation(m));
        };
        assert(t.text() == s@);
        Ok(t)
    }

    /// Parse from a string, returning an error on unknown variants.
    pub fn parse(s: &str) -> (r: Result<RelationshipOrigin, ChapeauError>)
        ensures
            r matches Ok(t) ==> t.text() == s@,
            r is Err <==> !Self::is_origin_text(s@),
            r matches Err(e) ==> e matches ChapeauError::Validation(m) && m@
                == "invalid relationship origin: "@ + s@,
    {
        Self::from_str(s)
    }

    /// All known origins.
    pub fn all() -> (v: &'static [RelationshipOrigin])
        ensures
            v@ == seq![RelationshipOrigin::System, RelationshipOrigin::User, RelationshipOrigin::Derived],
    {
        &[RelationshipOrigin::System, RelationshipOrigin::User, RelationshipOrigin::Derived]
    }
}

/// The text of an origin is one that parsing accepts, and different origins
/// have different texts, so parsing the text of an origin gives that origin
/// back.
pub proof fn law_relationship_origin_text_roundtrip(a: RelationshipOrigin, b: RelationshipOrigin)
    ensures
        RelationshipOrigin::is_origin_text(a.text()),
        a.text() == b.text() ==> a == b,
{
    reveal_strlit("system");
    reveal_strlit("user");
    reveal_strlit("derived");
    if a != b && a.text() == b.text() {
        assert(a.text()[0] == b.text()[0]);
    }
}

impl std::str::FromStr for RelationshipOrigin {
    type Err = ChapeauError;

    fn from_str(s: &str) -> (r: Result<RelationshipOrigin, ChapeauError>)
        ensures
            r matches Ok(t) ==> t.text() == s@,
            r is Err <==> !RelationshipOrigin::is_origin_text(s@),
            r matches Err(e) ==> e matches ChapeauError::Validation(m) && m@
                == "invalid relationship origin: "@ + s@,
    {
        RelationshipOrigin::from_str(s)
    }
}

/// A directed relationship between two resources.
#[derive(Debug, Clone, PartialEq, Eq)]
pub struct Relationship {
    /// Internal UUID.
    pub id: String,
    /// ID of the source resource.
    pub source_id: String,
    /// The type of relationship.
    pub relationship_type: RelationshipType,
    /// ID of the target resource.
    pub target_id: String,
    /// Where this relationship was discovered or created.
    pub origin: RelationshipOrigin,
    /// ISO-8601 creation timestamp.
    pub created_at: String,
    /// ISO-8601 last-update timestamp.
    pub updated_at: String,
}

impl Relationship {
    /// Create a new Relationship with the given fields and timestamps set to now.
    pub fn new(
        source_id: String,
        relationship_type: RelationshipType,
        target_id: String,
        origin: RelationshipOrigin,
    ) -> (r: Self)
        ensures
            r.source_id == source_id,
            r.relationship_type == relationship_type,
            r.target_id == target_id,
            r.origin == origin,
            r.id@.len() == 36,
            r.created_at@.len() > 0,
            r.created_at == r.updated_at,
    {
        let now = now_rfc3339();
        Relationship {
            id: new_uuid(),
            source_id,
            relationship_type,
            target_id,
            origin,
            created_at: now.clone(),
            updated_at: now,
        }
    }

    /// The error that `validate` reports, if any.
    pub open spec fn validation_error(&self) -> Option<Seq<char>> {
        if self.id@.len() == 0 {
            Some("relationship id must not be empty"@)
        } else if self.source_id@.len() == 0 {
            Some("relationship source_id must not be empty"@)
        } else if self.target_id@.len() == 0 {
            Some("relationship target_id must not be empty"@)
        } else if self.source_id@ == self.target_id@ {
            Some("relationship source and target must differ"@)
        } else {
            None
        }
    }

    /// Validate the relationship fields.
    pub fn validate(&self) -> (r: Result<(), ChapeauError>)
        ensures
            r is Ok <==> self.validation_error() is None,
            r matches Err(e) ==> e matches ChapeauError::Validation(m) && Some(m@)
                == self.validation_error(),
    {
        if self.id.as_str().is_empty() {
            return Err(
                ChapeauError::Validation(String::from_str("relationship id must not be empty")),
            );
        }
        if self.source_id.as_str().is_empty() {
            return Err(
                ChapeauError::Validation(
                    String::from_str("relationship source_id must not be empty"),
                ),
            );
        }
        if self.target_id.as_str().is_empty() {
            return Err(
                ChapeauError::Validation(
                    String::from_str("relationship target_id must not be empty"),
                ),
            );
        }
        if self.source_id == self.target_id {
            return Err(
                ChapeauError::Validation(
                    String::from_str("relationship source and target must differ"),
                ),
            );
        }
        Ok(())
    }
}

} // verus!
