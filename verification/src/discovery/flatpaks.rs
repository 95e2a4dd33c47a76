//! Flatpak applications, runtimes and remotes.
use vstd::prelude::*;

use crate::seqs::{first_match, lemma_filter_step, lemma_first_match_at, lemma_first_match_none};
use crate::stamp::now_rfc3339;
use crate::text::str_eq;

verus! {

/// Type of a Flatpak ref.
#[derive(Debug, Clone, Copy, PartialEq, Eq, Structural)]
pub enum FlatpakRefKind {
    Application,
    Runtime,
}

impl FlatpakRefKind {
    /// The text of the kind.
    pub open spec fn text(self) -> Seq<char> {
        match self {
            FlatpakRefKind::Application => "application"@,
            FlatpakRefKind::Runtime => "runtime"@,
        }
    }

    /// The text of the kind.
    pub fn as_str(&self) -> (s: &'static str)
        ensures
            s@ == self.text(),
    {
        match self {
            FlatpakRefKind::Application => "application",
            FlatpakRefKind::Runtime => "runtime",
        }
    }

    /// The text of the kind, as `to_string` gives it.
    pub fn to_string(&self) -> (s: String)
        ensures
            s@ == self.text(),
    {
        String::from_str(self.as_str())
    }
}

/// A single installed Flatpak ref (application or runtime).
#[derive(Debug, Clone, PartialEq, Eq)]
pub struct FlatpakRecord {
    /// Application ID (e.g. "org.mozilla.firefox").
    pub id: String,
    /// Human-readable name (e.g. "Firefox Web Browser").
    pub name: String,
    /// Version string (e.g. "138.0.1").
    pub version: String,
    /// Architecture (e.g. "x86_64").
    pub arch: String,
    /// Origin remote name (e.g. "flathub").
    pub origin: String,
    /// Branch name (e.g. "stable", "24.08").
    pub branch: String,
    /// Active commit hash.
    pub active_commit: String,
    /// Runtime used by this app (only set for applications).
    pub runtime: Option<String>,
    /// Installation location ("system" or "user").
    pub installation: String,
    /// Whether this is an application or runtime.
    pub kind: FlatpakRefKind,
}

/// A Flatpak remote repository.
#[derive(Debug, Clone, PartialEq, Eq)]
pub struct FlatpakRemote {
    /// Remote name (e.g. "flathub").
    pub name: String,
    /// Remote URL.
    pub url: String,
    /// Human-readable title.
    pub title: String,
    /// Options string (e.g. "system,oci").
    pub options: String,
}

/// One entry of `flatpak list --json`, with every field optional.
#[derive(Debug, Clone)]
pub struct FlatpakListItem {
    pub application_id: Option<String>,
    pub name: Option<String>,
    pub version: Option<String>,
    pub arch: Option<String>,
    pub origin: Option<String>,
    pub branch: Option<String>,
    pub active_commit: Option<String>,
    pub runtime: Option<String>,
    pub installation: Option<String>,
}

/// One entry of `flatpak remotes --json`, with every field optional.
#[derive(Debug, Clone)]
pub struct FlatpakRemoteItem {
    pub name: Option<String>,
    pub url: Option<String>,
    pub title: Option<String>,
    pub options: Option<String>,
}

/// The view of an optional text, with the empty text for `None`.
pub open spec fn or_empty(s: Option<String>) -> Seq<char> {
    match s {
        Some(t) => t@,
        None => Seq::<char>::empty(),
    }
}

/// An optional text, or the empty text.
fn unwrap_or_empty(s: Option<String>) -> (r: String)
    ensures
        r@ == or_empty(s),
{
    match s {
        Some(t) => t,
        None => String::new(),
    }
}

/// The view of an optional text.
pub open spec fn opt_string_view(s: Option<String>) -> Option<Seq<char>> {
    match s {
        Some(t) => Some(t@),
        None => None,
    }
}

/// `r` is the record that list entry `item` gives: the entry must have an
/// application id; missing texts become empty, the runtime stays optional.
pub open spec fn record_of_item(item: FlatpakListItem, kind: FlatpakRefKind, r: FlatpakRecord) -> bool {
    &&& item.application_id matches Some(id) && r.id@ == id@
    &&& r.name@ == or_empty(item.name)
    &&& r.version@ == or_empty(item.version)
    &&& r.arch@ == or_empty(item.arch)
    &&& r.origin@ == or_empty(item.origin)
    &&& r.branch@ == or_empty(item.branch)
    &&& r.active_commit@ == or_empty(item.active_commit)
    &&& opt_string_view(r.runtime) == opt_string_view(item.runtime)
    &&& r.installation@ == or_empty(item.installation)
    &&& r.kind == kind
}

/// The records that `flatpak list --json` entries describe: entries without
/// an application id are skipped, the others kept in order.
pub fn records_from_list_items(items: Vec<FlatpakListItem>, kind: FlatpakRefKind) -> (r: Vec<
    FlatpakRecord,
>)
    ensures
        r@.len() == items@.filter(|it: FlatpakListItem| it.application_id is Some).len(),
        forall|k: int|
            0 <= k < r@.len() ==> record_of_item(
                items@.filter(|it: FlatpakListItem| it.application_id is Some)[k],
                kind,
                #[trigger] r@[k],
            ),
{
    let ghost pred = |it: FlatpakListItem| it.application_id is Some;
    let ghost all = items@;
    let mut r: Vec<FlatpakRecord> = Vec::new();
    for item in it: items
        invariant
            all == it.seq(),
            pred == (|it: FlatpakListItem| it.application_id is Some),
            r@.len() == all.take(it.index() as int).filter(pred).len(),
            forall|k: int|
                0 <= k < r@.len() ==> record_of_item(
                    all.take(it.index() as int).filter(pred)[k],
                    kind,
                    #[trigger] r@[k],
                ),
    {
        proof {
            lemma_filter_step(all, pred, it.index() as int);
        }
        assert(item == all[it.index() as int]);
        let ghost itv = item;
        match item.application_id {
            Some(id) => {
                let rec = FlatpakRecord {
                    id,
                    name: unwrap_or_empty(item.name),
                    version: unwrap_or_empty(item.version),
                    arch: unwrap_or_empty(item.arch),
                    origin: unwrap_or_empty(item.origin),
                    branch: unwrap_or_empty(item.branch),
                    active_commit: unwrap_or_empty(item.active_commit),
                    runtime: item.runtime,
                    installation: unwrap_or_empty(item.installation),
                    kind,
                };
                assert(record_of_item(itv, kind, rec));
                r.push(rec);
            },
            None => {},
        }
    }
    assert(all.take(all.len() as int) =~= all);
    r
}

/// `r` is the remote that remotes entry `item` gives: the entry must have a
/// name; missing texts become empty.
pub open spec fn remote_of_item(item: FlatpakRemoteItem, r: FlatpakRemote) -> bool {
    &&& item.name matches Some(n) && r.name@ == n@
    &&& r.url@ == or_empty(item.url)
    &&& r.title@ == or_empty(item.title)
    &&& r.options@ == or_empty(item.options)
}

/// The remotes that `flatpak remotes --json` entries describe: entries
/// without a name are skipped, the others kept in order.
pub fn remotes_from_items(items: Vec<FlatpakRemoteItem>) -> (r: Vec<FlatpakRemote>)
    ensures
        r@.len() == items@.filter(|it: FlatpakRemoteItem| it.name is Some).len(),
        forall|k: int|
            0 <= k < r@.len() ==> remote_of_item(
                items@.filter(|it: FlatpakRemoteItem| it.name is Some)[k],
                #[trigger] r@[k],
            ),
{
    let ghost pred = |it: FlatpakRemoteItem| it.name is Some;
    let ghost all = items@;
    let mut r: Vec<FlatpakRemote> = Vec::new();
    for item in it: items
        invariant
            all == it.seq(),
            pred == (|it: FlatpakRemoteItem| it.name is Some),
            r@.len() == all.take(it.index() as int).filter(pred).len(),
            forall|k: int|
                0 <= k < r@.len() ==> remote_of_item(
                    all.take(it.index() as int).filter(pred)[k],
                    #[trigger] r@[k],
                ),
    {
        proof {
            lemma_filter_step(all, pred, it.index() as int);
        }
        assert(item == all[it.index() as int]);
        let ghost itv = item;
        match item.name {
            Some(name) => {
                let rem = FlatpakRemote {
                    name,
                    url: unwrap_or_empty(item.url),
                    title: unwrap_or_empty(item.title),
                    options: unwrap_or_empty(item.options),
                };
                assert(remote_of_item(itv, rem));
                r.push(rem);
            },
            None => {},
        }
    }
    assert(all.take(all.len() as int) =~= all);
    r
}

/// A snapshot of all Flatpak state on the system.
#[derive(Debug, Clone)]
pub struct FlatpakSnapshot {
    /// Installed applications.
    pub apps: Vec<FlatpakRecord>,
    /// Installed runtimes.
    pub runtimes: Vec<FlatpakRecord>,
    /// Configured remotes.
    pub remotes: Vec<FlatpakRemote>,
    /// ISO-8601 timestamp of when the snapshot was taken.
    pub snapshot_time: String,
}

/// The first record with the given id.
fn find_record<'a>(records: &'a Vec<FlatpakRecord>, id: &str) -> (r: Option<&'a FlatpakRecord>)
    ensures
        match r {
            Some(p) => first_match(records@, |q: FlatpakRecord| q.id@ == id@) == Some(*p),
            None => first_match(records@, |q: FlatpakRecord| q.id@ == id@) is None,
        },
{
    let ghost pred = |q: FlatpakRecord| q.id@ == id@;
    let mut i: usize = 0;
    assert(records@.take(0) =~= Seq::<FlatpakRecord>::empty());
    while i < records.len()
        invariant
            i <= records@.len(),
            pred == (|q: FlatpakRecord| q.id@ == id@),
            first_match(records@.take(i as int), pred) is None,
        decreases records.len() - i,
    {
        if str_eq(records[i].id.as_str(), id) {
            proof {
                lemma_first_match_at(records@, pred, i as int);
            }
            return Some(&records[i]);
        }
        proof {
            lemma_first_match_none(records@, pred, i as int);
        }
        i = i + 1;
    }
    assert(records@.take(records@.len() as int) =~= records@);
    None
}

impl FlatpakSnapshot {
    /// An empty snapshot taken now.
    pub fn empty() -> (s: Self)
        ensures
            s.apps@.len() == 0,
            s.runtimes@.len() == 0,
            s.remotes@.len() == 0,
            s.snapshot_time@.len() > 0,
    {
        FlatpakSnapshot {
            apps: Vec::new(),
            runtimes: Vec::new(),
            remotes: Vec::new(),
            snapshot_time: now_rfc3339(),
        }
    }

    /// Total installed refs (apps + runtimes).
    pub fn total_count(&self) -> (n: usize)
        requires
            self.apps@.len() + self.runtimes@.len() <= usize::MAX,
        ensures
            n == self.apps@.len() + self.runtimes@.len(),
    {
        self.apps.len() + self.runtimes.len()
    }

    /// Find an app by ID.
    pub fn find_app(&self, id: &str) -> (r: Option<&FlatpakRecord>)
        ensures
            match r {
                Some(p) => first_match(self.apps@, |q: FlatpakRecord| q.id@ == id@) == Some(*p),
                None => first_match(self.apps@, |q: FlatpakRecord| q.id@ == id@) is None,
            },
    {
        find_record(&self.apps, id)
    }

    /// Find a runtime by ID.
    pub fn find_runtime(&self, id: &str) -> (r: Option<&FlatpakRecord>)
        ensures
            match r {
                Some(p) => first_match(self.runtimes@, |q: FlatpakRecord| q.id@ == id@) == Some(*p),
                None => first_match(self.runtimes@, |q: FlatpakRecord| q.id@ == id@) is None,
            },
    {
        find_record(&self.runtimes, id)
    }

    /// Apps from a specific origin, in order.
    pub fn apps_from_origin(&self, origin: &str) -> (r: Vec<&FlatpakRecord>)
        ensures
            r@.map_values(|p: &FlatpakRecord| *p) == self.apps@.filter(
                |p: FlatpakRecord| p.origin@ == origin@,
            ),
    {
        let ghost pred = |p: FlatpakRecord| p.origin@ == origin@;
        let mut r: Vec<&FlatpakRecord> = Vec::new();
        let mut i: usize = 0;
        while i < self.apps.len()
            invariant
                i <= self.apps@.len(),
                pred == (|p: FlatpakRecord| p.origin@ == origin@),
                r@.map_values(|p: &FlatpakRecord| *p) == self.apps@.take(i as int).filter(pred),
            decreases self.apps.len() - i,
        {
            proof {
                lemma_filter_step(self.apps@, pred, i as int);
            }
            if str_eq(self.apps[i].origin.as_str(), origin) {
                r.push(&self.apps[i]);
            }
            assert(r@.map_values(|p: &FlatpakRecord| *p) =~= self.apps@.take(i + 1).filter(pred));
            i = i + 1;
        }
        assert(self.apps@.take(self.apps@.len() as int) =~= self.apps@);
        r
    }

    /// The first remote with the given name.
    pub fn find_remote(&self, name: &str) -> (r: Option<&FlatpakRemote>)
        ensures
            match r {
                Some(p) => first_match(self.remotes@, |q: FlatpakRemote| q.name@ == name@) == Some(
                    *p,
                ),
                None => first_match(self.remotes@, |q: FlatpakRemote| q.name@ == name@) is None,
            },
    {
        let ghost pred = |q: FlatpakRemote| q.name@ == name@;
        let mut i: usize = 0;
        assert(self.remotes@.take(0) =~= Seq::<FlatpakRemote>::empty());
        while i < self.remotes.len()
            invariant
                i <= self.remotes@.len(),
                pred == (|q: FlatpakRemote| q.name@ == name@),
                first_match(self.remotes@.take(i as int), pred) is None,
            decreases self.remotes.len() - i,
        {
            if str_eq(self.remotes[i].name.as_str(), name) {
                proof {
                    lemma_first_match_at(self.remotes@, pred, i as int);
                }
                return Some(&self.remotes[i]);
            }
            proof {
                lemma_first_match_none(self.remotes@, pred, i as int);
            }
            i = i + 1;
        }
        assert(self.remotes@.take(self.remotes@.len() as int) =~= self.remotes@);
        None
    }
}

} // verus!
