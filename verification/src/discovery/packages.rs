//! Installed packages and repositories, as DNF reports them.
use vstd::prelude::*;

use crate::seqs::{first_match, lemma_filter_step, lemma_first_match_at, lemma_first_match_none};
use crate::stamp::now_rfc3339;
use crate::text::str_eq;

verus! {

/// Why a package was installed (from dnf5 `reason` field).
#[derive(Debug, Clone, Copy, PartialEq, Eq, Structural)]
pub enum InstallReason {
    /// Installed as a dependency of another package.
    Dependency,
    /// Installed explicitly by the user.
    User,
    /// Installed as part of a group.
    Group,
    /// Unknown reason.
    Unknown,
}

impl InstallReason {
    /// The text of the reason, as dnf5 writes it.
    pub open spec fn text(self) -> Seq<char> {
        match self {
            InstallReason::Dependency => "Dependency"@,
            InstallReason::User => "User"@,
            InstallReason::Group => "Group"@,
            InstallReason::Unknown => "Unknown"@,
        }
    }

    /// The reason dnf5's text names: `Unknown` for any other text.
    pub open spec fn of_text(s: Seq<char>) -> InstallReason {
        if s == "Dependency"@ {
            InstallReason::Dependency
        } else if s == "User"@ {
            InstallReason::User
        } else if s == "Group"@ {
            InstallReason::Group
        } else {
            InstallReason::Unknown
        }
    }

    /// The text of the reason.
    pub fn as_str(&self) -> (s: &'static str)
        ensures
            s@ == self.text(),
    {
        match self {
            InstallReason::Dependency => "Dependency",
            InstallReason::User => "User",
            InstallReason::Group => "Group",
            InstallReason::Unknown => "Unknown",
        }
    }

    /// The text of the reason, as `to_string` gives it.
    pub fn to_string(&self) -> (s: String)
        ensures
            s@ == self.text(),
    {
        String::from_str(self.as_str())
    }

    /// The reason named by dnf5's `reason` field.
    pub fn from_dnf5(s: &str) -> (r: InstallReason)
        ensures
            r == Self::of_text(s@),
    {
        if str_eq(s, "Dependency") {
            InstallReason::Dependency
        } else if str_eq(s, "User") {
            InstallReason::User
        } else if str_eq(s, "Group") {
            InstallReason::Group
        } else {
            InstallReason::Unknown
        }
    }
}

/// File-payload facts derived from a package's file list: only the small set
/// of structural signals needed to classify a package's semantic role.
#[derive(Debug, Clone, Copy, PartialEq, Eq)]
pub struct PackageFileFacts {
    /// Whether the package owns any files at all.
    pub has_files: bool,
    /// Whether the package installs a binary in a standard executable dir
    /// (`/usr/bin`, `/usr/sbin`, `/bin`, `/sbin`).
    pub has_executable: bool,
    /// Whether the package installs a `.desktop` entry.
    pub has_desktop_entry: bool,
    /// Whether the package installs an application payload under `/opt`.
    pub has_app_bundle: bool,
}

impl PackageFileFacts {
    /// No file facts at all.
    pub open spec fn none() -> PackageFileFacts {
        PackageFileFacts {
            has_files: false,
            has_executable: false,
            has_desktop_entry: false,
            has_app_bundle: false,
        }
    }
}

impl Default for PackageFileFacts {
    fn default() -> (r: Self)
        ensures
            r == PackageFileFacts::none(),
    {
        PackageFileFacts {
            has_files: false,
            has_executable: false,
            has_desktop_entry: false,
            has_app_bundle: false,
        }
    }
}

/// A single installed package discovered from DNF5.
#[derive(Debug, Clone, PartialEq, Eq)]
pub struct PackageRecord {
    /// Package name (e.g. "bash").
    pub name: String,
    /// EVR string (e.g. "5.3.9-3.fc44").
    pub version: String,
    /// Architecture (e.g. "x86_64", "noarch").
    pub arch: String,
    /// Repository ID the package came from (e.g. "fedora", "updates").
    pub repository: String,
    /// Why the package was installed.
    pub reason: InstallReason,
    /// The repository the package was originally installed from.
    pub from_repo: Option<String>,
    /// Unix timestamp of installation.
    pub install_time: Option<i64>,
    /// RPM summary (short description), used for semantic role classification.
    pub summary: Option<String>,
    /// Source RPM the package was built from, used to group subpackages by
    /// project.
    pub source_rpm: Option<String>,
    /// Structural facts derived from the package file list.
    pub file_facts: PackageFileFacts,
    /// systemd unit files shipped by the package (e.g. `postgresql.service`),
    /// used to link packages to the services they provide.
    pub service_units: Vec<String>,
}

/// A dependency relationship discovered from DNF5.
#[derive(Debug, Clone, PartialEq, Eq)]
pub struct DependencyRecord {
    /// The package that has the dependency.
    pub source_package: String,
    /// The raw dependency string from DNF5 (e.g. "libc.so.6()(64bit)").
    pub dependency_string: String,
    /// Type of dependency.
    pub dep_type: DependencyType,
}

/// The type of dependency relationship.
#[derive(Debug, Clone, Copy, PartialEq, Eq, Structural)]
pub enum DependencyType {
    Requires,
    Recommends,
    Suggests,
}

impl DependencyType {
    /// The text of the type.
    pub open spec fn text(self) -> Seq<char> {
        match self {
            DependencyType::Requires => "requires"@,
            DependencyType::Recommends => "recommends"@,
            DependencyType::Suggests => "suggests"@,
        }
    }

    /// The text of the type.
    pub fn as_str(&self) -> (s: &'static str)
        ensures
            s@ == self.text(),
    {
        match self {
            DependencyType::Requires => "requires",
            DependencyType::Recommends => "recommends",
            DependencyType::Suggests => "suggests",
        }
    }
}

/// A repository discovered from DNF5.
#[derive(Debug, Clone, PartialEq, Eq)]
pub struct RepoRecord {
    /// Repository ID (e.g. "fedora").
    pub id: String,
    /// Human-readable name.
    pub name: String,
    /// Whether the repository is enabled.
    pub is_enabled: bool,
}

/// A snapshot of system package state discovered from DNF5.
#[derive(Debug, Clone)]
pub struct SystemSnapshot {
    /// All installed packages.
    pub packages: Vec<PackageRecord>,
    /// All known repositories.
    pub repositories: Vec<RepoRecord>,
    /// ISO-8601 timestamp of when the snapshot was taken.
    pub snapshot_time: String,
}

impl SystemSnapshot {
    /// Create an empty snapshot.
    pub fn empty() -> (s: Self)
        ensures
            s.packages@.len() == 0,
            s.repositories@.len() == 0,
            s.snapshot_time@.len() > 0,
    {
        SystemSnapshot { packages: Vec::new(), repositories: Vec::new(), snapshot_time: now_rfc3339() }
    }

    /// Total number of installed packages.
    pub fn package_count(&self) -> (n: usize)
        ensures
            n == self.packages@.len(),
    {
        self.packages.len()
    }

    /// The number of packages installed for the given reason.
    pub open spec fn reason_count(&self, r: InstallReason) -> nat {
        self.packages@.filter(|p: PackageRecord| p.reason == r).len()
    }

    fn count_reason(&self, r: InstallReason) -> (n: usize)
        ensures
            n == self.reason_count(r),
    {
        let ghost pred = |p: PackageRecord| p.reason == r;
        let mut n: usize = 0;
        let mut i: usize = 0;
        while i < self.packages.len()
            invariant
                i <= self.packages@.len(),
                pred == (|p: PackageRecord| p.reason == r),
                n == self.packages@.take(i as int).filter(pred).len(),
                n <= i,
            decreases self.packages.len() - i,
        {
            proof {
                lemma_filter_step(self.packages@, pred, i as int);
            }
            if self.packages[i].reason == r {
                n = n + 1;
            }
            i = i + 1;
        }
        assert(self.packages@.take(self.packages@.len() as int) =~= self.packages@);
        n
    }

    /// Number of user-installed packages.
    pub fn user_installed_count(&self) -> (n: usize)
        ensures
            n == self.reason_count(InstallReason::User),
    {
        self.count_reason(InstallReason::User)
    }

    /// Number of dependency-installed packages.
    pub fn dependency_count(&self) -> (n: usize)
        ensures
            n == self.reason_count(InstallReason::Dependency),
    {
        self.count_reason(InstallReason::Dependency)
    }

    /// Number of group-installed packages.
    pub fn group_count(&self) -> (n: usize)
        ensures
            n == self.reason_count(InstallReason::Group),
    {
        self.count_reason(InstallReason::Group)
    }

    /// Find a package by name: the first one with that name.
    pub fn find_package(&self, name: &str) -> (r: Option<&PackageRecord>)
        ensures
            match r {
                Some(p) => first_match(self.packages@, |q: PackageRecord| q.name@ == name@) == Some(
                    *p,
                ),
                None => first_match(self.packages@, |q: PackageRecord| q.name@ == name@) is None,
            },
    {
        let ghost pred = |q: PackageRecord| q.name@ == name@;
        let mut i: usize = 0;
        assert(self.packages@.take(0) =~= Seq::<PackageRecord>::empty());
        while i < self.packages.len()
            invariant
                i <= self.packages@.len(),
                pred == (|q: PackageRecord| q.name@ == name@),
                first_match(self.packages@.take(i as int), pred) is None,
            decreases self.packages.len() - i,
        {
            if str_eq(self.packages[i].name.as_str(), name) {
                proof {
                    lemma_first_match_at(self.packages@, pred, i as int);
                }
                return Some(&self.packages[i]);
            }
            proof {
                lemma_first_match_none(self.packages@, pred, i as int);
            }
            i = i + 1;
        }
        assert(self.packages@.take(self.packages@.len() as int) =~= self.packages@);
        None
    }

    /// List packages from a specific repository, in order.
    pub fn packages_from_repo(&self, repo_id: &str) -> (r: Vec<&PackageRecord>)
        ensures
            r@.map_values(|p: &PackageRecord| *p) == self.packages@.filter(
                |p: PackageRecord| p.repository@ == repo_id@,
            ),
    {
        let ghost pred = |p: PackageRecord| p.repository@ == repo_id@;
        let mut r: Vec<&PackageRecord> = Vec::new();
        let mut i: usize = 0;
        while i < self.packages.len()
            invariant
                i <= self.packages@.len(),
                pred == (|p: PackageRecord| p.repository@ == repo_id@),
                r@.map_values(|p: &PackageRecord| *p) == self.packages@.take(i as int).filter(pred),
            decreases self.packages.len() - i,
        {
            proof {
                lemma_filter_step(self.packages@, pred, i as int);
            }
            if str_eq(self.packages[i].repository.as_str(), repo_id) {
                r.push(&self.packages[i]);
            }
            assert(r@.map_values(|p: &PackageRecord| *p) =~= self.packages@.take(i + 1).filter(
                pred,
            ));
            i = i + 1;
        }
        assert(self.packages@.take(self.packages@.len() as int) =~= self.packages@);
        r
    }

    /// List enabled repositories, in order.
    pub fn enabled_repos(&self) -> (r: Vec<&RepoRecord>)
        ensures
            r@.map_values(|p: &RepoRecord| *p) == self.repositories@.filter(
                |p: RepoRecord| p.is_enabled,
            ),
    {
        let ghost pred = |p: RepoRecord| p.is_enabled;
        let mut r: Vec<&RepoRecord> = Vec::new();
        let mut i: usize = 0;
        while i < self.repositories.len()
            invariant
                i <= self.repositories@.len(),
                pred == (|p: RepoRecord| p.is_enabled),
                r@.map_values(|p: &RepoRecord| *p) == self.repositories@.take(i as int).filter(
                    pred,
                ),
            decreases self.repositories.len() - i,
        {
            proof {
                lemma_filter_step(self.repositories@, pred, i as int);
            }
            if self.repositories[i].is_enabled {
                r.push(&self.repositories[i]);
            }
            assert(r@.map_values(|p: &RepoRecord| *p) =~= self.repositories@.take(i + 1).filter(
                pred,
            ));
            i = i + 1;
        }
        assert(self.repositories@.take(self.repositories@.len() as int) =~= self.repositories@);
        r
    }
}

} // verus!
