//! Point-in-time observations of a resource's live state.
use vstd::prelude::*;

use crate::errors::ChapeauError;
use crate::model::root_policy::opt_view;
use crate::stamp::now_rfc3339;
use crate::text::str_eq;

verus! {

/// A value recorded in an observation's metadata, as the library reads it.
#[derive(Debug, Clone, PartialEq, Eq)]
pub enum MetaValue {
    /// JSON `null`.
    Null,
    /// A JSON boolean.
    Bool(bool),
    /// A JSON number that is an integer in the range of an `i64`.
    Integer(i64),
    /// A JSON string.
    Text(String),
    /// Any other JSON value (another number, an array, an object), as JSON
    /// text.
    Other(String),
}

/// An observation's freeform metadata: the entries of a JSON object, each
/// key once.
#[derive(Debug, Clone, PartialEq, Eq)]
pub struct Metadata {
    pub entries: Vec<(String, MetaValue)>,
}

impl View for Metadata {
    type V = Seq<(String, MetaValue)>;

    open spec fn view(&self) -> Seq<(String, MetaValue)> {
        self.entries@
    }
}

/// The entries of optional metadata.
pub open spec fn meta_view(m: Option<Metadata>) -> Option<Seq<(String, MetaValue)>> {
    match m {
        Some(d) => Some(d@),
        None => None,
    }
}

/// Two observations record the same facts.
pub open spec fn same_observation(a: Observation, b: Observation) -> bool {
    &&& a.resource_id == b.resource_id
    &&& a.observed_at == b.observed_at
    &&& a.installed == b.installed
    &&& a.version == b.version
    &&& a.active == b.active
    &&& a.enabled == b.enabled
    &&& a.failed == b.failed
    &&& meta_view(a.metadata) == meta_view(b.metadata)
}

/// Two optional observations are both absent, or record the same facts.
pub open spec fn same_observation_opt(a: Option<Observation>, b: Option<Observation>) -> bool {
    match (a, b) {
        (Some(x), Some(y)) => same_observation(x, y),
        (None, None) => true,
        _ => false,
    }
}

/// The text recorded under `key` in an observation's metadata.
pub open spec fn observed_text(o: Option<Observation>, key: Seq<char>) -> Option<Seq<char>> {
    match o {
        Some(obs) => match obs.metadata {
            Some(m) => m.text_at(key),
            None => None,
        },
        None => None,
    }
}

/// The integer recorded under `key` in an observation's metadata.
pub open spec fn observed_integer(o: Option<Observation>, key: Seq<char>) -> Option<i64> {
    match o {
        Some(obs) => match obs.metadata {
            Some(m) => m.integer_at(key),
            None => None,
        },
        None => None,
    }
}

/// The text recorded under `key` in the metadata of an observation, when
/// there is one and the value there is a string.
pub fn metadata_text(o: &Option<Observation>, key: &str) -> (r: Option<String>)
    ensures
        opt_view(r) == observed_text(*o, key@),
{
    match o {
        Some(obs) => match &obs.metadata {
            Some(m) => m.text(key),
            None => None,
        },
        None => None,
    }
}

/// The integer recorded under `key` in the metadata of an observation, when
/// there is one and the value there is an integer.
pub fn metadata_integer(o: &Option<Observation>, key: &str) -> (r: Option<i64>)
    ensures
        r == observed_integer(*o, key@),
{
    match o {
        Some(obs) => match &obs.metadata {
            Some(m) => m.integer(key),
            None => None,
        },
        None => None,
    }
}

/// The value recorded under `key`: that of the first entry with that key.
pub open spec fn meta_entry(entries: Seq<(String, MetaValue)>, key: Seq<char>) -> Option<MetaValue>
    decreases entries.len(),
{
    if entries.len() == 0 {
        None
    } else {
        match meta_entry(entries.drop_last(), key) {
            Some(v) => Some(v),
            None => if entries.last().0@ == key {
                Some(entries.last().1)
            } else {
                None
            },
        }
    }
}

impl Metadata {
    /// The text recorded under `key`, when the value there is a string.
    pub open spec fn text_at(&self, key: Seq<char>) -> Option<Seq<char>> {
        match meta_entry(self.entries@, key) {
            Some(MetaValue::Text(t)) => Some(t@),
            _ => None,
        }
    }

    /// The integer recorded under `key`, when the value there is one.
    pub open spec fn integer_at(&self, key: Seq<char>) -> Option<i64> {
        match meta_entry(self.entries@, key) {
            Some(MetaValue::Integer(n)) => Some(n),
            _ => None,
        }
    }

    /// The position of the first entry with key `key`.
    fn position(&self, key: &str) -> (r: Option<usize>)
        ensures
            match r {
                Some(i) => i < self.entries@.len() && meta_entry(self.entries@, key@) == Some(
                    self.entries@[i as int].1,
                ),
                None => meta_entry(self.entries@, key@) is None,
            },
    {
        let mut i: usize = 0;
        while i < self.entries.len()
            invariant
                i <= self.entries@.len(),
                meta_entry(self.entries@.take(i as int), key@) is None,
            decreases self.entries.len() - i,
        {
            let ghost t = self.entries@.take(i + 1);
            assert(t.drop_last() =~= self.entries@.take(i as int));
            if str_eq(self.entries[i].0.as_str(), key) {
                proof {
                    lemma_meta_entry_prefix(self.entries@, key@, i + 1);
                }
                return Some(i);
            }
            i = i + 1;
        }
        assert(self.entries@.take(i as int) =~= self.entries@);
        None
    }

    /// A copy of the metadata.
    pub fn copy(&self) -> (c: Self)
        ensures
            c@ == self@,
    {
        let mut entries: Vec<(String, MetaValue)> = Vec::new();
        let mut i: usize = 0;
        while i < self.entries.len()
            invariant
                i <= self.entries@.len(),
                entries@ == self.entries@.take(i as int),
            decreases self.entries.len() - i,
        {
            let v = match &self.entries[i].1 {
                MetaValue::Null => MetaValue::Null,
                MetaValue::Bool(b) => MetaValue::Bool(*b),
                MetaValue::Integer(n) => MetaValue::Integer(*n),
                MetaValue::Text(t) => MetaValue::Text(t.clone()),
                MetaValue::Other(t) => MetaValue::Other(t.clone()),
            };
            entries.push((self.entries[i].0.clone(), v));
            assert(entries@ =~= self.entries@.take(i + 1));
            i = i + 1;
        }
        assert(self.entries@.take(i as int) =~= self.entries@);
        Metadata { entries }
    }

    /// The text recorded under `key`, when the value there is a string.
    pub fn text(&self, key: &str) -> (r: Option<String>)
        ensures
            opt_view(r) == self.text_at(key@),
    {
        match self.position(key) {
            Some(i) => match &self.entries[i].1 {
                MetaValue::Text(t) => Some(t.clone()),
                _ => None,
            },
            None => None,
        }
    }

    /// The integer recorded under `key`, when the value there is one.
    pub fn integer(&self, key: &str) -> (r: Option<i64>)
        ensures
            r == self.integer_at(key@),
    {
        match self.position(key) {
            Some(i) => match &self.entries[i].1 {
                MetaValue::Integer(n) => Some(*n),
                _ => None,
            },
            None => None,
        }
    }
}

/// Once a prefix holds the key, the whole sequence gives its value.
proof fn lemma_meta_entry_prefix(entries: Seq<(String, MetaValue)>, key: Seq<char>, k: int)
    requires
        0 <= k <= entries.len(),
        meta_entry(entries.take(k), key) is Some,
    ensures
        meta_entry(entries, key) == meta_entry(entries.take(k), key),
    decreases entries.len() - k,
{
    if k == entries.len() {
        assert(entries.take(k) =~= entries);
    } else {
        let t = entries.take(k + 1);
        assert(t.drop_last() =~= entries.take(k));
        lemma_meta_entry_prefix(entries, key, k + 1);
    }
}

/// A point-in-time observation of a resource's live state.
#[derive(Debug, Clone, PartialEq, Eq)]
pub struct Observation {
    /// ID of the resource being observed.
    pub resource_id: String,
    /// ISO-8601 timestamp of the observation.
    pub observed_at: String,
    /// Whether the resource is currently installed.
    pub installed: Option<bool>,
    /// Version string, if known.
    pub version: Option<String>,
    /// Whether the resource is currently active (e.g. running service).
    pub active: Option<bool>,
    /// Whether the resource is enabled (e.g. enabled systemd unit).
    pub enabled: Option<bool>,
    /// Whether the resource is in a failed state.
    pub failed: Option<bool>,
    /// Freeform metadata (JSON object).
    pub metadata: Option<Metadata>,
}

impl Observation {
    /// Create a new Observation with the current timestamp.
    pub fn new(resource_id: String) -> (o: Self)
        ensures
            o.resource_id == resource_id,
            o.observed_at@.len() > 0,
            o.installed is None,
            o.version is None,
            o.active is None,
            o.enabled is None,
            o.failed is None,
            o.metadata is None,
    {
        Observation {
            resource_id,
            observed_at: now_rfc3339(),
            installed: None,
            version: None,
            active: None,
            enabled: None,
            failed: None,
            metadata: None,
        }
    }

    /// The error that `validate` reports, if any.
    pub open spec fn validation_error(&self) -> Option<Seq<char>> {
        if self.resource_id@.len() == 0 {
            Some("observation resource_id must not be empty"@)
        } else if self.observed_at@.len() == 0 {
            Some("observation observed_at must not be empty"@)
        } else {
            None
        }
    }

    /// Validate the observation fields.
    pub fn validate(&self) -> (r: Result<(), ChapeauError>)
        ensures
            r is Ok <==> self.validation_error() is None,
            r matches Err(e) ==> e matches ChapeauError::Validation(m) && Some(m@)
                == self.validation_error(),
    {
        if self.resource_id.as_str().is_empty() {
            return Err(
                ChapeauError::Validation(
                    String::from_str("observation resource_id must not be empty"),
                ),
            );
        }
        if self.observed_at.as_str().is_empty() {
            return Err(
                ChapeauError::Validation(
                    String::from_str("observation observed_at must not be empty"),
                ),
            );
        }
        Ok(())
    }
}

} // verus!
