//! Domains: logical groupings of resources.
use vstd::prelude::*;

use crate::errors::ChapeauError;
use crate::stamp::{new_uuid, now_rfc3339};
use crate::text::{chars_of, is_white_space, is_white_space_exec};

verus! {

/// A logical grouping of resources (e.g. "desktop", "development", "media").
#[derive(Debug, Clone, PartialEq, Eq)]
pub struct Domain {
    /// Internal UUID.
    pub id: String,
    /// Human-readable domain name (unique).
    pub name: String,
    /// Optional description of what this domain covers.
    pub description: Option<String>,
    /// ISO-8601 creation timestamp.
    pub created_at: String,
    /// ISO-8601 last-update timestamp.
    pub updated_at: String,
}

/// Some character of `s` is white space.
pub open spec fn has_white_space(s: Seq<char>) -> bool {
    exists|i: int| 0 <= i < s.len() && is_white_space(#[trigger] s[i])
}

impl Domain {
    /// Create a new Domain with the given fields and timestamps set to now.
    pub fn new(name: String, description: Option<String>) -> (d: Self)
        ensures
            d.name == name,
            d.description == description,
            d.id@.len() == 36,
            d.created_at@.len() > 0,
            d.created_at == d.updated_at,
    {
        let now = now_rfc3339();
        Domain { id: new_uuid(), name, description, created_at: now.clone(), updated_at: now }
    }

    /// The error that `validate` reports, if any.
    pub open spec fn validation_error(&self) -> Option<Seq<char>> {
        if self.id@.len() == 0 {
            Some("domain id must not be empty"@)
        } else if self.name@.len() == 0 {
            Some("domain name must not be empty"@)
        } else if has_white_space(self.name@) {
            Some("domain name must not contain whitespace"@)
        } else {
            None
        }
    }

    /// Validate the domain fields.
    pub fn validate(&self) -> (r: Result<(), ChapeauError>)
        ensures
            r is Ok <==> self.validation_error() is None,
            r matches Err(e) ==> e matches ChapeauError::Validation(m) && Some(m@)
                == self.validation_error(),
    {
        if self.id.as_str().is_empty() {
            return Err(ChapeauError::Validation(String::from_str("domain id must not be empty")));
        }
        if self.name.as_str().is_empty() {
            return Err(ChapeauError::Validation(String::from_str("domain name must not be empty")));
        }
        let chars = chars_of(self.name.as_str());
        let mut i: usize = 0;
        while i < chars.len()
            invariant
                chars@ == self.name@,
                self.id@.len() > 0,
                self.name@.len() > 0,
                i <= chars.len(),
                forall|k: int| 0 <= k < i ==> !is_white_space(#[trigger] chars@[k]),
            decreases chars.len() - i,
        {
            if is_white_space_exec(chars[i]) {
                assert(is_white_space(self.name@[i as int]));
                return Err(
                    ChapeauError::Validation(
                        String::from_str("domain name must not contain whitespace"),
                    ),
                );
            }
            i = i + 1;
        }
        Ok(())
    }

    /// The domain's name, as `to_string` gives it.
    pub fn to_string(&self) -> (s: String)
        ensures
            s@ == self.name@,
    {
        self.name.clone()
    }
}

} // verus!
