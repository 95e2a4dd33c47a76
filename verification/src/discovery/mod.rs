//! Discovery: raw facts about the system, as backends report them, before
//! any semantics is applied.
pub mod flatpaks;
pub mod packages;
pub mod repositories;
pub mod services;

use vstd::prelude::*;

use crate::order::{stable_sort, stable_sort_vec, text_le, text_less_or_equal};
use crate::stamp::now_rfc3339;
use crate::text::{decimal, decimal_exec};
use flatpaks::{FlatpakRecord, FlatpakRemote};
use packages::{PackageRecord, RepoRecord};
use services::UnitRecord;

verus! {

/// A unified snapshot of all system state discovered from all backends.
///
/// This is the intermediate representation between discovery and
/// reconciliation: raw facts from each backend, without semantics applied.
#[derive(Debug, Clone)]
pub struct SystemSnapshot {
    /// All installed packages discovered from DNF.
    pub packages: Vec<PackageRecord>,
    /// All known repositories discovered from DNF.
    pub repositories: Vec<RepoRecord>,
    /// All loaded systemd units.
    pub units: Vec<UnitRecord>,
    /// All installed Flatpak applications.
    pub flatpak_apps: Vec<FlatpakRecord>,
    /// All installed Flatpak runtimes.
    pub flatpak_runtimes: Vec<FlatpakRecord>,
    /// All configured Flatpak remotes.
    pub flatpak_remotes: Vec<FlatpakRemote>,
    /// ISO-8601 timestamp of when the snapshot was taken.
    pub snapshot_time: String,
}

impl SystemSnapshot {
    /// An empty snapshot taken now.
    pub fn empty() -> (s: Self)
        ensures
            s.packages@.len() == 0,
            s.repositories@.len() == 0,
            s.units@.len() == 0,
            s.flatpak_apps@.len() == 0,
            s.flatpak_runtimes@.len() == 0,
            s.flatpak_remotes@.len() == 0,
            s.snapshot_time@.len() > 0,
    {
        SystemSnapshot {
            packages: Vec::new(),
            repositories: Vec::new(),
            units: Vec::new(),
            flatpak_apps: Vec::new(),
            flatpak_runtimes: Vec::new(),
            flatpak_remotes: Vec::new(),
            snapshot_time: now_rfc3339(),
        }
    }

    /// The number of discovered resources: packages, units and Flatpak refs.
    pub open spec fn resource_total(&self) -> nat {
        self.packages@.len() + self.units@.len() + self.flatpak_apps@.len()
            + self.flatpak_runtimes@.len()
    }

    /// Total number of resources discovered (packages + units + flatpaks).
    pub fn total_count(&self) -> (n: usize)
        requires
            self.resource_total() <= usize::MAX,
        ensures
            n == self.resource_total(),
    {
        self.packages.len() + self.units.len() + self.flatpak_apps.len()
            + self.flatpak_runtimes.len()
    }

    /// Number of distinct repositories.
    pub fn repository_count(&self) -> (n: usize)
        ensures
            n == self.repositories@.len(),
    {
        self.repositories.len()
    }

    /// Number of distinct Flatpak remotes.
    pub fn flatpak_remote_count(&self) -> (n: usize)
        ensures
            n == self.flatpak_remotes@.len(),
    {
        self.flatpak_remotes.len()
    }
}

/// Summary of what a scan changed in the knowledge base.
#[derive(Debug, Clone)]
pub struct ScanSummary {
    /// Number of new resources created.
    pub created: usize,
    /// Number of existing resources updated.
    pub updated: usize,
    /// Number of observations written.
    pub observations: usize,
    /// Number of relationships created.
    pub relationships_created: usize,
    /// Number of resources discovered this scan.
    pub total_discovered: usize,
    /// Per-type breakdown of discovered resources, one entry per type.
    pub by_type: Vec<(String, usize)>,
}

impl Default for ScanSummary {
    fn default() -> (s: Self)
        ensures
            s.created == 0 && s.updated == 0 && s.observations == 0,
            s.relationships_created == 0 && s.total_discovered == 0,
            s.by_type@.len() == 0,
    {
        ScanSummary {
            created: 0,
            updated: 0,
            observations: 0,
            relationships_created: 0,
            total_discovered: 0,
            by_type: Vec::new(),
        }
    }
}

/// The order of per-type counts: by type name.
pub open spec fn type_count_order() -> spec_fn((String, usize), (String, usize)) -> bool {
    |a: (String, usize), b: (String, usize)| text_le(a.0@, b.0@)
}

/// The lines `    <type>: <count>` of the per-type counts, in order.
pub open spec fn type_lines(counts: Seq<(String, usize)>) -> Seq<char>
    decreases counts.len(),
{
    if counts.len() == 0 {
        Seq::<char>::empty()
    } else {
        type_lines(counts.drop_last()) + "    "@ + counts.last().0@ + ": "@ + decimal(
            counts.last().1 as nat,
        ) + "\n"@
    }
}

impl ScanSummary {
    /// The text of the summary: the counts, then the per-type counts
    /// sorted by type name, when there are any.
    pub open spec fn text(&self) -> Seq<char> {
        "Scan complete:\n  Discovered: "@ + decimal(self.total_discovered as nat)
            + " resources\n  Created:    "@ + decimal(self.created as nat)
            + " new\n  Updated:    "@ + decimal(self.updated as nat)
            + " existing\n  Observations: "@ + decimal(self.observations as nat)
            + "\n  Relationships: "@ + decimal(self.relationships_created as nat) + "\n"@ + if self.by_type@.len()
            == 0 {
            Seq::<char>::empty()
        } else {
            "  By type:\n"@ + type_lines(stable_sort(self.by_type@, type_count_order()))
        }
    }

    /// The summary as text.
    pub fn to_string(&self) -> (s: String)
        ensures
            s@ == self.text(),
    {
        let mut s = String::from_str("Scan complete:\n  Discovered: ");
        s.append(decimal_exec(self.total_discovered).as_str());
        s.append(" resources\n  Created:    ");
        s.append(decimal_exec(self.created).as_str());
        s.append(" new\n  Updated:    ");
        s.append(decimal_exec(self.updated).as_str());
        s.append(" existing\n  Observations: ");
        s.append(decimal_exec(self.observations).as_str());
        s.append("\n  Relationships: ");
        s.append(decimal_exec(self.relationships_created).as_str());
        s.append("\n");
        if self.by_type.len() == 0 {
            return s;
        }
        s.append("  By type:\n");
        let mut copies: Vec<(String, usize)> = Vec::new();
        let mut i: usize = 0;
        while i < self.by_type.len()
            invariant
                i <= self.by_type.len(),
                copies@ == self.by_type@.take(i as int),
            decreases self.by_type.len() - i,
        {
            copies.push((self.by_type[i].0.clone(), self.by_type[i].1));
            i = i + 1;
            assert(copies@ =~= self.by_type@.take(i as int));
        }
        assert(self.by_type@.take(self.by_type.len() as int) =~= self.by_type@);
        let sorted = stable_sort_vec(copies, type_count_le, Ghost(type_count_order()));
        let ghost head = s@;
        let mut k: usize = 0;
        while k < sorted.len()
            invariant
                k <= sorted.len(),
                s@ == head + type_lines(sorted@.take(k as int)),
            decreases sorted.len() - k,
        {
            s.append("    ");
            s.append(sorted[k].0.as_str());
            s.append(": ");
            s.append(decimal_exec(sorted[k].1).as_str());
            s.append("\n");
            let ghost t = sorted@.take(k + 1);
            assert(t.drop_last() =~= sorted@.take(k as int));
            k = k + 1;
        }
        assert(sorted@.take(sorted.len() as int) =~= sorted@);
        s
    }
}

/// Whether per-type count `a` comes before `b` or with it.
fn type_count_le(a: &(String, usize), b: &(String, usize)) -> (r: bool)
    ensures
        r == (type_count_order())(*a, *b),
{
    text_less_or_equal(a.0.as_str(), b.0.as_str())
}

} // verus!
