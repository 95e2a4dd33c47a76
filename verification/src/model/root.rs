//! Roots: resources that are intentionally present.
use vstd::prelude::*;

use crate::errors::ChapeauError;
use crate::stamp::now_rfc3339;
use crate::text::str_eq;

verus! {

/// How a root was established.
#[derive(Debug, Clone, Copy, PartialEq, Eq, Structural)]
pub enum RootSource {
    /// User explicitly declared this as a root via `chapeau root add`.
    User,
    /// Detected as a candidate root during scan (DNF user-installed package,
    /// Flatpak application, or a service provided by a deliberate package).
    Detected,
    /// User adopted an existing resource as a root.
    Adopted,
    /// User hid this resource from the default My System view. Hidden roots
    /// are preserved across scans and never re-detected.
    Ignored,
}

impl RootSource {
    /// The text of the source, as stored and shown.
    pub open spec fn text(self) -> Seq<char> {
        match self {
            RootSource::User => "user"@,
            RootSource::Detected => "detected"@,
            RootSource::Adopted => "adopted"@,
            RootSource::Ignored => "hidden"@,
        }
    }

    /// The text names some source.
    pub open spec fn is_source_text(s: Seq<char>) -> bool {
        exists|t: RootSource| t.text() == s
    }

    /// The text of the source.
    pub fn as_str(&self) -> (s: &'static str)
        ensures
            s@ == self.text(),
    {
        match self {
            RootSource::User => "user",
            RootSource::Detected => "detected",
            RootSource::Adopted => "adopted",
            RootSource::Ignored => "hidden",
        }
    }

    /// The text of the source, as `to_string` gives it.
    pub fn to_string(&self) -> (s: String)
        ensures
            s@ == self.text(),
    {
        String::from_str(self.as_str())
    }

    /// Parse the text of a source.
    pub fn from_str(s: &str) -> (r: Result<RootSource, ChapeauError>)
        ensures
            r matches Ok(t) ==> t.text() == s@,
            r is Err <==> !Self::is_source_text(s@),
            r matches Err(e) ==> e matches ChapeauError::Validation(m) && m@
                == "invalid root source: "@ + s@,
    {
        let t = if str_eq(s, "user") {
            RootSource::User
        } else if str_eq(s, "detected") {
            RootSource::Detected
        } else if str_eq(s, "adopted") {
            RootSource::Adopted
        } else if str_eq(s, "hidden") {
            RootSource::Ignored
        } else {
            assert forall|t: RootSource| t.text() != s@ by {
                match t {
                    RootSource::User => {},
                    RootSource::Detected => {},
                    RootSource::Adopted => {},
                    RootSource::Ignored => {},
                }
            }
            let mut m = String::from_str("invalid root source: ");
            m.append(s);
            return Err(ChapeauError::Validation(m));
        };
        assert(t.text() == s@);
        Ok(t)
    }
}

/// The text of a source is one that parsing accepts, and different sources
/// have different texts, so parsing the text of a source gives that source
/// back.
pub proof fn law_root_source_text_roundtrip(a: RootSource, b: RootSource)
    ensures
        RootSource::is_source_text(a.text()),
        a.text() == b.text() ==> a == b,
{
    reveal_strlit("user");
    reveal_strlit("detected");
    reveal_strlit("adopted");
    reveal_strlit("hidden");
    if a != b && a.text() == b.text() {
        assert(a.text()[0] == b.text()[0]);
    }
}

impl std::str::FromStr for RootSource {
    type Err = ChapeauError;

    fn from_str(s: &str) -> (r: Result<RootSource, ChapeauError>)
        ensures
            r matches Ok(t) ==> t.text() == s@,
            r is Err <==> !RootSource::is_source_text(s@),
            r matches Err(e) ==> e matches ChapeauError::Validation(m) && m@
                == "invalid root source: "@ + s@,
    {
        RootSource::from_str(s)
    }
}

/// A root resource — something considered intentionally present.
#[derive(Debug, Clone)]
pub struct Root {
    /// The resource this root refers to.
    pub resource_id: String,
    /// How this root was established.
    pub source: RootSource,
    /// Optional explanation for why this is a root.
    pub reason: Option<String>,
    /// When this root was created.
    pub created_at: String,
    /// When this root was last updated.
    pub updated_at: String,
}

impl Root {
    /// Create a new Root with current timestamps.
    pub fn new(resource_id: String, source: RootSource, reason: Option<String>) -> (r: Self)
        ensures
            r.resource_id == resource_id,
            r.source == source,
            r.reason == reason,
            r.created_at@.len() > 0,
            r.created_at == r.updated_at,
    {
        let now = now_rfc3339();
        Root { resource_id, source, reason, created_at: now.clone(), updated_at: now }
    }
}

} // verus!
