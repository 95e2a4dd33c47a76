//! Root candidate classification policy.
//!
//! DNF's `user-installed` flag is *evidence* of user intent, not semantic
//! truth: it also marks development headers, Perl modules, firmware and
//! libraries that were pulled in as part of an explicit install transaction.
//!
//! This module turns package metadata (summary, source RPM, file payload)
//! plus the dependency graph into a small, deterministic, explainable
//! classification: DNF user-installed → candidate evidence → semantic role +
//! entry points + graph position → intentional root or supporting resource.
//!
//! The policy is local: it has no database or process dependencies. The
//! scanner feeds it discovered facts and persists the resulting decisions.
use vstd::prelude::*;

use crate::order::{lemma_text_lt_irreflexive, lemma_text_lt_transitive, lemma_text_trichotomy, text_less, text_lt};
use crate::text::{
    chars_of, chars_range, contains_any, contains_any_of, contains_str, copy_chars, ends_with_str,
    has_prefix, has_substring, has_suffix, is_digit, is_digit_exec, join, join_exec, starts_with_chars,
    lemma_split_nonempty, lower, lower_exec, split, split_exec, starts_with_str, string_of, trim,
    trim_exec, views,
};

verus! {

/// Minimum score for a package to be considered an intentional root.
pub const ROOT_THRESHOLD: i32 = 4;

/// Evidence points awarded to a DNF user-installed package.
pub const SCORE_USER_INSTALLED: i32 = 2;

/// Evidence points for the canonical package of a source project.
pub const SCORE_CANONICAL: i32 = 3;

/// Weak positive for a package whose role is a user-facing application.
pub const SCORE_APPLICATION_ROLE: i32 = 1;

/// Strong positive for a package shipping a `.desktop` entry.
pub const SCORE_DESKTOP_ENTRY: i32 = 5;

/// Positive for a package shipping an application bundle under `/opt`.
pub const SCORE_APP_BUNDLE: i32 = 4;

/// Positive for a package shipping an executable in a standard bin dir.
pub const SCORE_EXECUTABLE: i32 = 2;

/// Penalty applied to every supporting (non-application) package role.
pub const SCORE_SUPPORTING_ROLE: i32 = -10;

/// Penalty applied for each project-level demotion of a candidate.
pub const SCORE_PROJECT_DEMOTION: i32 = -10;

/// Summary phrases of Perl module packages.
pub const PERL_SUMMARY: [&'static str; 6] = [
    "perl module",
    "perl modules",
    "perl extension",
    "perl interface",
    "perl library",
    "perl class",
];

/// Summary phrases of system administration and platform tooling.
pub const SYSTEM_SUMMARY: [&'static str; 18] = [
    "package manager",
    "package maintenance",
    "boot loader",
    "bootloader",
    "secure boot",
    "signing utility",
    "signing tool",
    "signature",
    "signatures",
    "compatibility",
    "snapshot",
    "driver",
    "file system in userspace",
    "userspace file system",
    "video4linux",
    "udev",
    "uefi",
    "cryptographic architecture",
];

/// Summary phrases of development packages.
pub const DEVELOPMENT_SUMMARY: [&'static str; 11] = [
    "development files",
    "development package",
    "development tools",
    "devel libraries",
    "devel files",
    "header files",
    "files for developing",
    "libraries and header",
    "libraries & headers",
    "development",
    "devel ",
];

/// Summary phrases of RPM macro packages.
pub const MACRO_SUMMARY: [&'static str; 4] = [
    "rpm macros",
    "srpm macros",
    "macros for",
    "macros required",
];

/// Summary phrases of documentation packages.
pub const DOC_SUMMARY: [&'static str; 6] = [
    "documentation files",
    "doc files",
    "doc package",
    "doc tools",
    "api documentation",
    "man pages",
];

/// Summary phrases of filesystem layout packages.
pub const FILESYSTEM_SUMMARY: [&'static str; 5] = [
    "directory layout",
    "filesystem layout",
    "filesystem package",
    "filesystem for",
    "layout for",
];

/// Summary phrases of presentation assets.
pub const ASSET_SUMMARY: [&'static str; 4] = ["font", "icon theme", "wallpaper", "sound theme"];

/// Summary phrases of libraries and runtimes.
pub const LIBRARY_SUMMARY: [&'static str; 12] = [
    "library",
    "libraries",
    "runtime",
    "shared library",
    "bindings",
    "framework",
    " api",
    "codec",
    "engine for",
    "implementation of",
    "implementation",
    "plugins for",
];

/// Summary phrases of supporting components.
pub const SUPPORT_SUMMARY: [&'static str; 21] = [
    "directory layout",
    "configuration files",
    "configuration",
    "repository files",
    "repository configuration",
    "customizations",
    "macros",
    "modules",
    "scripts for",
    "dependencies",
    "installation environment",
    "support for",
    "common files",
    "files needed",
    "plugin",
    "data for",
    "utility files",
    "translations",
    "localization",
    "l10n",
    "language pack",
];

/// The semantic role a package plays, derived from authoritative RPM/package
/// metadata (summary text, package name conventions, source package).
#[derive(Debug, Clone, Copy, PartialEq, Eq, Structural)]
pub enum PackageRole {
    /// A user-facing application, tool, shell, server or service package.
    Application,
    /// Development headers, shared development files (`-devel`, `-headers`).
    Development,
    /// Shared/runtime libraries and language bindings.
    Library,
    /// Directory-layout and filesystem-ownership packages.
    Filesystem,
    /// Hardware firmware blobs.
    Firmware,
    /// Kernel and kernel-module packages.
    Kernel,
    /// System administration and platform tooling: package managers, boot
    /// loaders, signing tools, drivers and similar.
    System,
    /// Perl module packages (Fedora packages them as `perl-*`).
    PerlModule,
    /// RPM macro packages used for building.
    Macro,
    /// Documentation-only packages.
    Documentation,
    /// Fonts, icon themes and other presentation assets.
    Asset,
    /// Common files, configuration, plugins, translations and other
    /// supporting components.
    Support,
}

impl PackageRole {
    /// The role is supporting rather than user-facing.
    pub open spec fn supporting(self) -> bool {
        self != PackageRole::Application
    }

    /// The human-readable label of the role.
    pub open spec fn label_text(self) -> Seq<char> {
        match self {
            PackageRole::Application => "application"@,
            PackageRole::Development => "development package"@,
            PackageRole::Library => "library or runtime"@,
            PackageRole::Filesystem => "filesystem layout package"@,
            PackageRole::Firmware => "firmware"@,
            PackageRole::Kernel => "kernel component"@,
            PackageRole::System => "system component"@,
            PackageRole::PerlModule => "Perl module"@,
            PackageRole::Macro => "build macro package"@,
            PackageRole::Documentation => "documentation package"@,
            PackageRole::Asset => "presentation asset"@,
            PackageRole::Support => "supporting component"@,
        }
    }

    /// True when this role is supporting rather than user-facing.
    pub fn is_supporting(self) -> (b: bool)
        ensures
            b == self.supporting(),
    {
        !matches!(self, PackageRole::Application)
    }

    /// Human-readable label used in explanations.
    pub fn label(self) -> (s: &'static str)
        ensures
            s@ == self.label_text(),
    {
        match self {
            PackageRole::Application => "application",
            PackageRole::Development => "development package",
            PackageRole::Library => "library or runtime",
            PackageRole::Filesystem => "filesystem layout package",
            PackageRole::Firmware => "firmware",
            PackageRole::Kernel => "kernel component",
            PackageRole::System => "system component",
            PackageRole::PerlModule => "Perl module",
            PackageRole::Macro => "build macro package",
            PackageRole::Documentation => "documentation package",
            PackageRole::Asset => "presentation asset",
            PackageRole::Support => "supporting component",
        }
    }

    /// The label, as `to_string` gives it.
    pub fn to_string(self) -> (s: String)
        ensures
            s@ == self.label_text(),
    {
        String::from_str(self.label())
    }
}

/// The role that package metadata gives a package: the first rule that
/// matches, from the most specific packaging conventions to the most general
/// keyword signals. `name` and `summary` are matched case-insensitively.
pub open spec fn role_of(name: Seq<char>, summary: Seq<char>) -> PackageRole {
    let s = lower(summary);
    let n = lower(name);
    if has_prefix(n, "perl-"@) || contains_any_of(s, PERL_SUMMARY@) {
        PackageRole::PerlModule
    } else if has_prefix(n, "kernel"@) || has_prefix(n, "kmod-"@) || has_prefix(n, "akmod-"@)
        || has_substring(s, "kernel module"@) {
        PackageRole::Kernel
    } else if has_substring(s, "firmware"@) {
        PackageRole::Firmware
    } else if contains_any_of(s, SYSTEM_SUMMARY@) {
        PackageRole::System
    } else if has_suffix(n, "-devel"@) || has_suffix(n, "-headers"@) || contains_any_of(
        s,
        DEVELOPMENT_SUMMARY@,
    ) {
        PackageRole::Development
    } else if contains_any_of(s, MACRO_SUMMARY@) {
        PackageRole::Macro
    } else if has_suffix(n, "-doc"@) || has_suffix(n, "-docs"@) || contains_any_of(
        s,
        DOC_SUMMARY@,
    ) {
        PackageRole::Documentation
    } else if has_suffix(n, "-filesystem"@) || contains_any_of(s, FILESYSTEM_SUMMARY@) {
        PackageRole::Filesystem
    } else if contains_any_of(s, ASSET_SUMMARY@) {
        PackageRole::Asset
    } else if has_suffix(n, "-libs"@) || has_suffix(n, "-lib"@) || contains_any_of(
        s,
        LIBRARY_SUMMARY@,
    ) {
        PackageRole::Library
    } else if contains_any_of(s, SUPPORT_SUMMARY@) {
        PackageRole::Support
    } else {
        PackageRole::Application
    }
}

/// The view of an optional text, with the empty text for `None`.
pub open spec fn text_or_empty(s: Option<&str>) -> Seq<char> {
    match s {
        Some(t) => t@,
        None => Seq::<char>::empty(),
    }
}

/// Classify a package's semantic role from its name and summary.
pub fn classify_package_role(name: &str, summary: Option<&str>) -> (r: PackageRole)
    ensures
        r == role_of(name@, text_or_empty(summary)),
{
    let summary_chars = match summary {
        Some(s) => chars_of(s),
        None => Vec::new(),
    };
    let s = lower_exec(&summary_chars);
    let name_chars = chars_of(name);
    let n = lower_exec(&name_chars);
    assert(summary_chars@ == text_or_empty(summary));
    if starts_with_str(&n, "perl-") || contains_any(&s, &PERL_SUMMARY) {
        return PackageRole::PerlModule;
    }
    if starts_with_str(&n, "kernel") || starts_with_str(&n, "kmod-") || starts_with_str(
        &n,
        "akmod-",
    ) || contains_str(&s, "kernel module") {
        return PackageRole::Kernel;
    }
    if contains_str(&s, "firmware") {
        return PackageRole::Firmware;
    }
    if contains_any(&s, &SYSTEM_SUMMARY) {
        return PackageRole::System;
    }
    if ends_with_str(&n, "-devel") || ends_with_str(&n, "-headers") || contains_any(
        &s,
        &DEVELOPMENT_SUMMARY,
    ) {
        return PackageRole::Development;
    }
    if contains_any(&s, &MACRO_SUMMARY) {
        return PackageRole::Macro;
    }
    if ends_with_str(&n, "-doc") || ends_with_str(&n, "-docs") || contains_any(&s, &DOC_SUMMARY) {
        return PackageRole::Documentation;
    }
    if ends_with_str(&n, "-filesystem") || contains_any(&s, &FILESYSTEM_SUMMARY) {
        return PackageRole::Filesystem;
    }
    if contains_any(&s, &ASSET_SUMMARY) {
        return PackageRole::Asset;
    }
    if ends_with_str(&n, "-libs") || ends_with_str(&n, "-lib") || contains_any(
        &s,
        &LIBRARY_SUMMARY,
    ) {
        return PackageRole::Library;
    }
    if contains_any(&s, &SUPPORT_SUMMARY) {
        return PackageRole::Support;
    }
    PackageRole::Application
}

/// A dash-separated part of a source RPM name that starts a version or
/// release (its first character is a digit).
pub open spec fn version_like(p: Seq<char>) -> bool {
    p.len() > 0 && is_digit(p[0])
}

/// The dash-separated parts that remain after trailing version-like parts
/// are dropped; the first part is always kept.
pub open spec fn name_parts(parts: Seq<Seq<char>>) -> Seq<Seq<char>>
    decreases parts.len(),
{
    if parts.len() > 1 && version_like(parts.last()) {
        name_parts(parts.drop_last())
    } else {
        parts
    }
}

/// A source RPM file name without its `.src.rpm` suffix and surrounding
/// white space.
pub open spec fn source_stem(s: Seq<char>) -> Seq<char> {
    let stripped = if has_suffix(s, ".src.rpm"@) {
        s.take(s.len() - ".src.rpm"@.len())
    } else {
        s
    };
    trim(stripped)
}

/// The base package name of a source RPM file name: the stem with its
/// trailing version and release parts removed.
pub open spec fn source_base_of(s: Seq<char>) -> Seq<char> {
    join(name_parts(split(source_stem(s), '-')), '-')
}

/// Derive the base package name from a source RPM filename.
///
/// `git-2.54.0-1.fc44.src.rpm` → `git`
/// `postgresql18-18.3-2.fc44.src.rpm` → `postgresql18`
pub fn source_base(source_rpm: &str) -> (r: String)
    ensures
        r@ == source_base_of(source_rpm@),
{
    let chars = chars_of(source_rpm);
    let suffix = chars_of(".src.rpm");
    let stripped = if ends_with_str(&chars, ".src.rpm") {
        chars_range(&chars, 0, chars.len() - suffix.len())
    } else {
        copy_chars(&chars)
    };
    let stem = trim_exec(&stripped);
    let mut parts = split_exec(&stem, '-');
    proof {
        lemma_split_nonempty(stem@, '-');
    }
    while parts.len() > 1 && parts[parts.len() - 1].len() > 0 && is_digit_exec(
        parts[parts.len() - 1][0],
    )
        invariant
            parts.len() >= 1,
            name_parts(views(parts@)) == name_parts(split(stem@, '-')),
        decreases parts.len(),
    {
        let ghost before = views(parts@);
        parts.pop();
        assert(views(parts@) =~= before.drop_last());
    }
    let joined = join_exec(&parts, '-');
    string_of(&joined)
}

/// Runtime facts about one installed package, gathered by discovery.
#[derive(Debug, Clone, PartialEq, Eq, Default)]
pub struct PackageFacts {
    /// Package name.
    pub name: String,
    /// RPM summary (short description).
    pub summary: Option<String>,
    /// Source RPM the package was built from.
    pub source_rpm: Option<String>,
    /// Whether DNF marks the package as user-installed.
    pub user_installed: bool,
    /// Whether the package owns any files at all.
    pub has_files: bool,
    /// Whether the package installs an executable in a standard bin dir.
    pub has_executable: bool,
    /// Whether the package installs a `.desktop` entry.
    pub has_desktop_entry: bool,
    /// Whether the package installs an application payload under `/opt`.
    pub has_app_bundle: bool,
}

/// The view of an optional owned text.
pub open spec fn opt_view(s: Option<String>) -> Option<Seq<char>> {
    match s {
        Some(t) => Some(t@),
        None => None,
    }
}

/// The view of an optional owned text, with the empty text for `None`.
pub open spec fn opt_text(s: Option<String>) -> Seq<char> {
    match s {
        Some(t) => t@,
        None => Seq::<char>::empty(),
    }
}

impl PackageFacts {
    /// The base of the package's source RPM, when it has one and it is not
    /// empty.
    pub open spec fn base(&self) -> Option<Seq<char>> {
        match self.source_rpm {
            Some(r) => if source_base_of(r@).len() > 0 {
                Some(source_base_of(r@))
            } else {
                None
            },
            None => None,
        }
    }

    /// The package has a user-facing entry point.
    pub open spec fn has_entry(&self) -> bool {
        self.has_executable || self.has_desktop_entry || self.has_app_bundle
    }

    /// The role its name and summary give the package.
    pub open spec fn role(&self) -> PackageRole {
        role_of(self.name@, opt_text(self.summary))
    }

    /// The base name of the package's source RPM (e.g. `git` for
    /// `git-2.54.0-1.fc44.src.rpm`).
    pub fn source_base(&self) -> (r: Option<String>)
        ensures
            opt_view(r) == self.base(),
    {
        match &self.source_rpm {
            Some(rpm) => {
                let b = source_base(rpm.as_str());
                if b.as_str().is_empty() {
                    None
                } else {
                    Some(b)
                }
            },
            None => None,
        }
    }
}

/// Positive evidence that contributed to a root decision.
#[derive(Debug, Clone, Copy, PartialEq, Eq, Structural)]
pub enum RootEvidence {
    /// DNF reported the package as user-installed.
    DnfUserInstalled,
    /// The package installs a `.desktop` entry.
    DesktopEntry,
    /// The package installs an application payload under `/opt`.
    ApplicationBundle,
    /// The package installs an executable in a standard bin directory.
    Executable,
    /// The package is the canonical package of its source project.
    CanonicalProjectPackage,
}

impl RootEvidence {
    /// The human-readable label of the evidence.
    pub open spec fn label_text(self) -> Seq<char> {
        match self {
            RootEvidence::DnfUserInstalled => "DNF user-installed package"@,
            RootEvidence::DesktopEntry => "desktop application entry"@,
            RootEvidence::ApplicationBundle => "application bundle"@,
            RootEvidence::Executable => "user-facing executable"@,
            RootEvidence::CanonicalProjectPackage => "canonical project package"@,
        }
    }

    /// The human-readable label of the evidence.
    pub fn label(&self) -> (s: &'static str)
        ensures
            s@ == self.label_text(),
    {
        match self {
            RootEvidence::DnfUserInstalled => "DNF user-installed package",
            RootEvidence::DesktopEntry => "desktop application entry",
            RootEvidence::ApplicationBundle => "application bundle",
            RootEvidence::Executable => "user-facing executable",
            RootEvidence::CanonicalProjectPackage => "canonical project package",
        }
    }
}

/// Why a package was *not* classified as an intentional root.
#[derive(Debug, Clone, PartialEq, Eq)]
pub enum DemotionReason {
    /// DNF does not mark the package as user-installed.
    NotUserInstalled,
    /// The package role is supporting (library, development, firmware...).
    SupportingRole(PackageRole),
    /// The package has no user-facing entry point.
    NoUserFacingEntryPoint,
    /// A stronger package from the same project depends on this one.
    ComponentOf(String),
    /// The package is a component of a development toolchain from the same
    /// source project.
    ToolchainComponentOf(String),
    /// Another candidate from the same project already represents it: the
    /// stronger one with the highest intrinsic score, ties going to the name
    /// that comes first.
    CoveredBy(String),
}

/// A demotion reason with its package name taken by its view.
pub enum Demotion {
    NotUserInstalled,
    SupportingRole(PackageRole),
    NoUserFacingEntryPoint,
    ComponentOf(Seq<char>),
    ToolchainComponentOf(Seq<char>),
    CoveredBy(Seq<char>),
}

impl View for DemotionReason {
    type V = Demotion;

    open spec fn view(&self) -> Demotion {
        match self {
            DemotionReason::NotUserInstalled => Demotion::NotUserInstalled,
            DemotionReason::SupportingRole(r) => Demotion::SupportingRole(*r),
            DemotionReason::NoUserFacingEntryPoint => Demotion::NoUserFacingEntryPoint,
            DemotionReason::ComponentOf(s) => Demotion::ComponentOf(s@),
            DemotionReason::ToolchainComponentOf(s) => Demotion::ToolchainComponentOf(s@),
            DemotionReason::CoveredBy(s) => Demotion::CoveredBy(s@),
        }
    }
}

impl Demotion {
    /// The human-readable explanation of the demotion.
    pub open spec fn description(self) -> Seq<char> {
        match self {
            Demotion::NotUserInstalled => "not marked as user-installed (dependency or group install)"@,
            Demotion::SupportingRole(role) => "package role: "@ + role.label_text(),
            Demotion::NoUserFacingEntryPoint => "no user-facing executable or application entry point"@,
            Demotion::ComponentOf(o) => "component of '"@ + o + "'"@,
            Demotion::ToolchainComponentOf(o) => "component of the development toolchain of '"@ + o
                + "'"@,
            Demotion::CoveredBy(o) => "already represented by project package '"@ + o + "'"@,
        }
    }

    /// The demotion ties the package to another package of its project.
    pub open spec fn is_project(self) -> bool {
        ||| self is ComponentOf
        ||| self is ToolchainComponentOf
        ||| self is CoveredBy
    }
}

impl DemotionReason {
    /// Human-readable explanation.
    pub fn describe(&self) -> (s: String)
        ensures
            s@ == self@.description(),
    {
        match self {
            DemotionReason::NotUserInstalled => String::from_str(
                "not marked as user-installed (dependency or group install)",
            ),
            DemotionReason::SupportingRole(role) => {
                let mut s = String::from_str("package role: ");
                s.append(role.label());
                s
            },
            DemotionReason::NoUserFacingEntryPoint => String::from_str(
                "no user-facing executable or application entry point",
            ),
            DemotionReason::ComponentOf(other) => {
                let mut s = String::from_str("component of '");
                s.append(other.as_str());
                s.append("'");
                s
            },
            DemotionReason::ToolchainComponentOf(other) => {
                let mut s = String::from_str("component of the development toolchain of '");
                s.append(other.as_str());
                s.append("'");
                s
            },
            DemotionReason::CoveredBy(other) => {
                let mut s = String::from_str("already represented by project package '");
                s.append(other.as_str());
                s.append("'");
                s
            },
        }
    }
}

/// The views of a sequence of demotion reasons.
pub open spec fn demotion_views(v: Seq<DemotionReason>) -> Seq<Demotion> {
    v.map_values(|d: DemotionReason| d@)
}

/// The classifier's decision for one package.
#[derive(Debug, Clone, PartialEq, Eq)]
pub struct PackageDecision {
    /// Package name.
    pub name: String,
    /// Semantic role derived from metadata.
    pub role: PackageRole,
    /// Score before project-level demotions.
    pub intrinsic_score: i32,
    /// Score after project-level demotions.
    pub score: i32,
    /// Whether the package should be a detected root.
    pub is_root: bool,
    /// Positive evidence supporting the decision.
    pub evidence: Vec<RootEvidence>,
    /// Reasons the package is supporting, in a stable order.
    pub demotions: Vec<DemotionReason>,
}

/// Labels joined with `"; "` between them.
pub open spec fn join_labels(labels: Seq<Seq<char>>) -> Seq<char>
    decreases labels.len(),
{
    if labels.len() == 0 {
        Seq::<char>::empty()
    } else if labels.len() == 1 {
        labels[0]
    } else {
        join_labels(labels.drop_last()) + "; "@ + labels.last()
    }
}

/// The reason text of a decision with the given evidence.
pub open spec fn reason_text(evidence: Seq<RootEvidence>) -> Seq<char> {
    if evidence.len() == 0 {
        "semantic root classification"@
    } else {
        join_labels(evidence.map_values(|e: RootEvidence| e.label_text()))
    }
}

impl PackageDecision {
    /// Compact, human-readable reason string for persistence in `roots.reason`.
    pub fn reason_string(&self) -> (s: String)
        ensures
            s@ == reason_text(self.evidence@),
    {
        if self.evidence.len() == 0 {
            return String::from_str("semantic root classification");
        }
        let ghost labels = self.evidence@.map_values(|e: RootEvidence| e.label_text());
        let mut s = String::new();
        let mut k: usize = 0;
        while k < self.evidence.len()
            invariant
                k <= self.evidence.len(),
                labels == self.evidence@.map_values(|e: RootEvidence| e.label_text()),
                s@ == join_labels(labels.take(k as int)),
            decreases self.evidence.len() - k,
        {
            if k > 0 {
                s.append("; ");
            }
            s.append(self.evidence[k].label());
            let ghost t = labels.take(k + 1);
            assert(t.drop_last() =~= labels.take(k as int));
            k = k + 1;
        }
        assert(labels.take(self.evidence.len() as int) =~= labels);
        s
    }
}

/// The views of a sequence of texts.
pub open spec fn string_views(v: Seq<String>) -> Seq<Seq<char>> {
    v.map_values(|s: String| s@)
}

/// The entry for `k` in `entries`, the last one if there are several.
pub open spec fn lookup_last(entries: Seq<(Seq<char>, Seq<Seq<char>>)>, k: Seq<char>) -> Option<
    Seq<Seq<char>>,
>
    decreases entries.len(),
{
    if entries.len() == 0 {
        None
    } else if entries.last().0 == k {
        Some(entries.last().1)
    } else {
        lookup_last(entries.drop_last(), k)
    }
}

/// For each package name, the installed packages that directly depend on it
/// (incoming `DependsOn` edges).
#[derive(Debug, Clone)]
pub struct DependentsMap {
    entries: Vec<(String, Vec<String>)>,
}

impl DependentsMap {
    /// The entries of the map, by their views, in insertion order.
    pub closed spec fn entries_view(&self) -> Seq<(Seq<char>, Seq<Seq<char>>)> {
        self.entries@.map_values(|e: (String, Vec<String>)| (e.0@, string_views(e.1@)))
    }

    /// The dependents recorded for `name`.
    pub open spec fn dependents(&self, name: Seq<char>) -> Option<Seq<Seq<char>>> {
        lookup_last(self.entries_view(), name)
    }

    /// Package `a` depends on package `b`: `a` is recorded among the
    /// dependents of `b`.
    pub open spec fn depends(&self, a: Seq<char>, b: Seq<char>) -> bool {
        match self.dependents(b) {
            Some(ds) => ds.contains(a),
            None => false,
        }
    }

    /// An empty map.
    pub fn new() -> (m: Self)
        ensures
            forall|k: Seq<char>| #[trigger] m.dependents(k) is None,
    {
        let m = DependentsMap { entries: Vec::new() };
        assert(m.entries_view() =~= Seq::<(Seq<char>, Seq<Seq<char>>)>::empty());
        m
    }

    /// Record the dependents of `name`, replacing any earlier record.
    pub fn insert(&mut self, name: String, dependents: Vec<String>)
        ensures
            forall|k: Seq<char>| #[trigger]
                final(self).dependents(k) == if k == name@ {
                    Some(string_views(dependents@))
                } else {
                    old(self).dependents(k)
                },
    {
        let ghost old_entries = self.entries_view();
        let ghost nv = name@;
        let ghost dv = string_views(dependents@);
        self.entries.push((name, dependents));
        assert(self.entries_view() =~= old_entries.push((nv, dv)));
        assert(self.entries_view().drop_last() =~= old_entries);
    }

    /// The dependents recorded for `name`.
    pub fn get(&self, name: &String) -> (r: Option<&Vec<String>>)
        ensures
            match r {
                Some(v) => self.dependents(name@) == Some(string_views(v@)),
                None => self.dependents(name@) is None,
            },
    {
        let mut k: usize = self.entries.len();
        assert(self.entries_view().take(k as int) =~= self.entries_view());
        while k > 0
            invariant
                k <= self.entries.len(),
                self.dependents(name@) == lookup_last(self.entries_view().take(k as int), name@),
            decreases k,
        {
            let ghost t = self.entries_view().take(k as int);
            assert(t.drop_last() =~= self.entries_view().take(k - 1));
            if self.entries[k - 1].0 == *name {
                return Some(&self.entries[k - 1].1);
            }
            k = k - 1;
        }
        None
    }

    /// Whether `a` is recorded among the dependents of `b`.
    pub fn has_dependent(&self, b: &String, a: &String) -> (r: bool)
        ensures
            r == self.depends(a@, b@),
    {
        match self.get(b) {
            Some(ds) => {
                let mut i: usize = 0;
                while i < ds.len()
                    invariant
                        i <= ds.len(),
                        self.dependents(b@) == Some(string_views(ds@)),
                        forall|j: int| 0 <= j < i ==> ds@[j]@ != a@,
                    decreases ds.len() - i,
                {
                    if ds[i] == *a {
                        assert(string_views(ds@)[i as int] == a@);
                        assert(string_views(ds@).contains(a@));
                        return true;
                    }
                    i = i + 1;
                }
                assert(!string_views(ds@).contains(a@));
                false
            },
            None => false,
        }
    }
}

// ---------------------------------------------------------------------------
// The classification, stated over the facts and the dependents map
// ---------------------------------------------------------------------------

/// Two packages belong to the same project when they share a source package
/// base name, or when one package name is a `-`-delimited extension of the
/// other (e.g. `docker-ce` / `docker-ce-cli`).
pub open spec fn same_project(a: PackageFacts, b: PackageFacts) -> bool {
    ||| (a.base() is Some && a.base() == b.base())
    ||| has_prefix(a.name@, b.name@.push('-'))
    ||| has_prefix(b.name@, a.name@.push('-'))
}

/// Package `i` is the canonical package of its source project: it declares
/// itself a metapackage, or it has no entry point of its own, its name is
/// its source base, and another package of that source has one.
pub open spec fn canonical_at(fs: Seq<PackageFacts>, i: int) -> bool {
    ||| has_substring(lower(opt_text(fs[i].summary)), "metapackage"@)
    ||| {
        &&& !fs[i].has_entry()
        &&& fs[i].base() == Some(fs[i].name@)
        &&& exists|j: int|
            #![trigger fs[j]]
            0 <= j < fs.len() && j != i && fs[j].base() == fs[i].base() && fs[j].has_entry()
    }
}

/// The score that the facts of a package earn when it plays `role`.
pub open spec fn score_with_role(f: PackageFacts, canonical: bool, role: PackageRole) -> int {
    (if f.user_installed {
        SCORE_USER_INSTALLED as int
    } else {
        0
    }) + (if canonical {
        SCORE_CANONICAL as int
    } else {
        0
    }) + (if role == PackageRole::Application {
        SCORE_APPLICATION_ROLE as int
    } else {
        0
    }) + (if f.has_desktop_entry {
        SCORE_DESKTOP_ENTRY as int
    } else {
        0
    }) + (if f.has_app_bundle {
        SCORE_APP_BUNDLE as int
    } else {
        0
    }) + (if f.has_executable {
        SCORE_EXECUTABLE as int
    } else {
        0
    }) + (if role.supporting() {
        SCORE_SUPPORTING_ROLE as int
    } else {
        0
    })
}

/// The score of a package before project-level demotions: that of its own
/// role.
pub open spec fn intrinsic_of(f: PackageFacts, canonical: bool) -> int {
    score_with_role(f, canonical, f.role())
}

/// The positive evidence of a package, in a fixed order.
pub open spec fn evidence_of(f: PackageFacts, canonical: bool) -> Seq<RootEvidence> {
    let e0 = if f.user_installed {
        seq![RootEvidence::DnfUserInstalled]
    } else {
        Seq::<RootEvidence>::empty()
    };
    let e1 = if canonical {
        e0.push(RootEvidence::CanonicalProjectPackage)
    } else {
        e0
    };
    let e2 = if f.has_desktop_entry {
        e1.push(RootEvidence::DesktopEntry)
    } else {
        e1
    };
    let e3 = if f.has_app_bundle {
        e2.push(RootEvidence::ApplicationBundle)
    } else {
        e2
    };
    if f.has_executable {
        e3.push(RootEvidence::Executable)
    } else {
        e3
    }
}

/// The intrinsic score of package `i`.
pub open spec fn intrinsic_at(fs: Seq<PackageFacts>, i: int) -> int {
    intrinsic_of(fs[i], canonical_at(fs, i))
}

/// Package `i` is a root candidate: its intrinsic score reaches the threshold.
pub open spec fn candidate_at(fs: Seq<PackageFacts>, i: int) -> bool {
    intrinsic_at(fs, i) >= ROOT_THRESHOLD
}

/// The position of the last package named `name`.
pub open spec fn last_named(fs: Seq<PackageFacts>, name: Seq<char>) -> Option<int>
    decreases fs.len(),
{
    if fs.len() == 0 {
        None
    } else if fs.last().name@ == name {
        Some(fs.len() - 1)
    } else {
        last_named(fs.drop_last(), name)
    }
}

/// Another candidate of the same project, not a development package,
/// depends on package `i`.
pub open spec fn other_consumer(fs: Seq<PackageFacts>, deps: DependentsMap, i: int) -> bool {
    exists|k: int|
        #![trigger fs[k]]
        0 <= k < fs.len() && k != i && candidate_at(fs, k) && fs[k].role()
            != PackageRole::Development && same_project(fs[i], fs[k]) && deps.depends(
            fs[i].name@,
            fs[k].name@,
        )
}

/// The demotion that the dependent named `d` brings to candidate `i`.
pub open spec fn dependent_demotion(
    fs: Seq<PackageFacts>,
    deps: DependentsMap,
    i: int,
    d: Seq<char>,
) -> Seq<Demotion> {
    match last_named(fs, d) {
        None => Seq::<Demotion>::empty(),
        Some(j) => if j == i || !same_project(fs[i], fs[j]) {
            Seq::<Demotion>::empty()
        } else if fs[j].role() == PackageRole::Development {
            if other_consumer(fs, deps, i) {
                Seq::<Demotion>::empty()
            } else {
                seq![Demotion::ToolchainComponentOf(d)]
            }
        } else if !candidate_at(fs, j) {
            Seq::<Demotion>::empty()
        } else if intrinsic_at(fs, j) > intrinsic_at(fs, i) || (intrinsic_at(fs, j) == intrinsic_at(
            fs,
            i,
        ) && !deps.depends(fs[i].name@, fs[j].name@)) {
            seq![Demotion::ComponentOf(d)]
        } else {
            Seq::<Demotion>::empty()
        },
    }
}

/// The demotions that the dependents `ds` bring to candidate `i`, in order.
pub open spec fn dependent_demotions(
    fs: Seq<PackageFacts>,
    deps: DependentsMap,
    i: int,
    ds: Seq<Seq<char>>,
) -> Seq<Demotion>
    decreases ds.len(),
{
    if ds.len() == 0 {
        Seq::<Demotion>::empty()
    } else {
        dependent_demotions(fs, deps, i, ds.drop_last()) + dependent_demotion(
            fs,
            deps,
            i,
            ds.last(),
        )
    }
}

/// Candidate `j` is stronger than package `i` and of the same project.
pub open spec fn stronger_at(fs: Seq<PackageFacts>, i: int, j: int) -> bool {
    j != i && candidate_at(fs, j) && intrinsic_at(fs, j) > intrinsic_at(fs, i) && same_project(
        fs[i],
        fs[j],
    )
}

/// Package `j` covers a project better than package `k`: it has the higher
/// intrinsic score, or the same score and a name that comes first.
pub open spec fn better_cover(fs: Seq<PackageFacts>, j: int, k: int) -> bool {
    ||| intrinsic_at(fs, j) > intrinsic_at(fs, k)
    ||| (intrinsic_at(fs, j) == intrinsic_at(fs, k) && text_lt(fs[j].name@, fs[k].name@))
}

/// Among the packages before position `n` that are stronger than `i`, the
/// one that covers the project best: the highest intrinsic score, ties
/// going to the name that comes first (and, for equal names, to the earlier
/// package).
pub open spec fn strongest_cover(fs: Seq<PackageFacts>, i: int, n: int) -> Option<int>
    decreases n,
{
    if n <= 0 {
        None
    } else {
        let best = strongest_cover(fs, i, n - 1);
        if stronger_at(fs, i, n - 1) {
            match best {
                Some(k) => if better_cover(fs, n - 1, k) {
                    Some(n - 1)
                } else {
                    Some(k)
                },
                None => Some(n - 1),
            }
        } else {
            best
        }
    }
}

/// The demotions of candidate `i`, in the order the policy records them.
pub open spec fn candidate_demotions(fs: Seq<PackageFacts>, deps: DependentsMap, i: int) -> Seq<
    Demotion,
> {
    let f = fs[i];
    let a = if !f.user_installed {
        seq![Demotion::NotUserInstalled]
    } else {
        Seq::<Demotion>::empty()
    };
    let b = if f.role().supporting() {
        a.push(Demotion::SupportingRole(f.role()))
    } else {
        a
    };
    let c = match deps.dependents(f.name@) {
        Some(ds) => b + dependent_demotions(fs, deps, i, ds),
        None => b,
    };
    match strongest_cover(fs, i, fs.len() as int) {
        Some(j) => c.push(Demotion::CoveredBy(fs[j].name@)),
        None => c,
    }
}

/// The number of project-level demotions.
pub open spec fn project_count(ds: Seq<Demotion>) -> nat
    decreases ds.len(),
{
    if ds.len() == 0 {
        0
    } else {
        project_count(ds.drop_last()) + if ds.last().is_project() {
            1nat
        } else {
            0nat
        }
    }
}

/// The demotions recorded before the final decision: those of a candidate,
/// none for other packages.
pub open spec fn pre_demotions(fs: Seq<PackageFacts>, deps: DependentsMap, i: int) -> Seq<Demotion> {
    if candidate_at(fs, i) {
        candidate_demotions(fs, deps, i)
    } else {
        Seq::<Demotion>::empty()
    }
}

/// The score of package `i` after project-level demotions.
pub open spec fn score_at(fs: Seq<PackageFacts>, deps: DependentsMap, i: int) -> int {
    intrinsic_at(fs, i) + SCORE_PROJECT_DEMOTION * project_count(pre_demotions(fs, deps, i))
}

/// Package `i` is an intentional root: user-installed, of a user-facing
/// role, not demoted in favour of another package of its project, and
/// scoring at least the threshold.
pub open spec fn root_at(fs: Seq<PackageFacts>, deps: DependentsMap, i: int) -> bool {
    &&& fs[i].user_installed
    &&& !fs[i].role().supporting()
    &&& project_count(pre_demotions(fs, deps, i)) == 0
    &&& score_at(fs, deps, i) >= ROOT_THRESHOLD
}

/// Every score can be computed in an `i32`: for each package, the penalty
/// of its project-level demotions and its final score lie in that range.
pub open spec fn scores_fit(fs: Seq<PackageFacts>, deps: DependentsMap) -> bool {
    forall|i: int|
        0 <= i < fs.len() ==> SCORE_PROJECT_DEMOTION * project_count(pre_demotions(fs, deps, i))
            >= i32::MIN && #[trigger] score_at(fs, deps, i) >= i32::MIN
}

/// The reason given to a package that is not a root and has no other
/// recorded demotion.
pub open spec fn fallback_demotion(f: PackageFacts) -> Demotion {
    if !f.user_installed {
        Demotion::NotUserInstalled
    } else if f.role().supporting() {
        Demotion::SupportingRole(f.role())
    } else {
        Demotion::NoUserFacingEntryPoint
    }
}

/// The demotions of package `i` in its decision.
pub open spec fn demotions_at(fs: Seq<PackageFacts>, deps: DependentsMap, i: int) -> Seq<Demotion> {
    let pre = pre_demotions(fs, deps, i);
    if !root_at(fs, deps, i) && pre.len() == 0 {
        seq![fallback_demotion(fs[i])]
    } else {
        pre
    }
}

/// `d` is the policy's decision for package `i`.
pub open spec fn decided(d: PackageDecision, fs: Seq<PackageFacts>, deps: DependentsMap, i: int) -> bool {
    &&& d.name@ == fs[i].name@
    &&& d.role == fs[i].role()
    &&& d.intrinsic_score == intrinsic_at(fs, i)
    &&& d.score == score_at(fs, deps, i)
    &&& d.is_root == root_at(fs, deps, i)
    &&& d.evidence@ == evidence_of(fs[i], canonical_at(fs, i))
    &&& demotion_views(d.demotions@) == demotions_at(fs, deps, i)
}

// ---------------------------------------------------------------------------
// The classification, computed
// ---------------------------------------------------------------------------

/// Per-package values computed once and shared by the project-level rules.
struct Tables {
    bases: Vec<Option<String>>,
    roles: Vec<PackageRole>,
    intrinsic: Vec<i32>,
    candidate: Vec<bool>,
}

/// The tables hold, for every package, its source base, role, intrinsic
/// score and candidacy.
spec fn tables_ok(t: &Tables, fs: Seq<PackageFacts>) -> bool {
    &&& t.bases@.len() == fs.len()
    &&& t.roles@.len() == fs.len()
    &&& t.intrinsic@.len() == fs.len()
    &&& t.candidate@.len() == fs.len()
    &&& forall|k: int| 0 <= k < fs.len() ==> opt_view(#[trigger] t.bases@[k]) == fs[k].base()
    &&& forall|k: int| 0 <= k < fs.len() ==> #[trigger] t.roles@[k] == fs[k].role()
    &&& forall|k: int| 0 <= k < fs.len() ==> #[trigger] t.intrinsic@[k] == intrinsic_at(fs, k)
    &&& forall|k: int| 0 <= k < fs.len() ==> #[trigger] t.candidate@[k] == candidate_at(fs, k)
}

/// The intrinsic score lies between the supporting-role penalty and the sum
/// of all positive evidence.
proof fn lemma_intrinsic_range(f: PackageFacts, canonical: bool)
    ensures
        -10 <= intrinsic_of(f, canonical) <= 17,
{
}

/// Equality of two optional texts by their views.
fn opt_eq(a: &Option<String>, b: &Option<String>) -> (r: bool)
    ensures
        r == (opt_view(*a) == opt_view(*b)),
{
    match (a, b) {
        (Some(x), Some(y)) => *x == *y,
        (None, None) => true,
        _ => false,
    }
}

/// Whether two packages belong to the same project.
fn same_project_exec(
    a: &PackageFacts,
    a_base: &Option<String>,
    b: &PackageFacts,
    b_base: &Option<String>,
) -> (r: bool)
    requires
        opt_view(*a_base) == a.base(),
        opt_view(*b_base) == b.base(),
    ensures
        r == same_project(*a, *b),
{
    if a_base.is_some() && opt_eq(a_base, b_base) {
        return true;
    }
    let an = chars_of(a.name.as_str());
    let bn = chars_of(b.name.as_str());
    let mut an_dash = copy_chars(&an);
    an_dash.push('-');
    let mut bn_dash = copy_chars(&bn);
    bn_dash.push('-');
    starts_with_chars(&an, &bn_dash) || starts_with_chars(&bn, &an_dash)
}

/// Whether a package has a user-facing entry point.
fn has_entry_exec(f: &PackageFacts) -> (r: bool)
    ensures
        r == f.has_entry(),
{
    f.has_executable || f.has_desktop_entry || f.has_app_bundle
}

/// The role of a package.
fn role_exec(f: &PackageFacts) -> (r: PackageRole)
    ensures
        r == f.role(),
{
    let summary: Option<&str> = match &f.summary {
        Some(s) => Some(s.as_str()),
        None => None,
    };
    assert(text_or_empty(summary) == opt_text(f.summary));
    classify_package_role(f.name.as_str(), summary)
}

/// Whether package `i` is the canonical package of its project.
fn is_canonical(facts: &[PackageFacts], bases: &Vec<Option<String>>, i: usize) -> (r: bool)
    requires
        i < facts@.len(),
        bases@.len() == facts@.len(),
        forall|k: int| 0 <= k < facts@.len() ==> opt_view(#[trigger] bases@[k]) == facts@[k].base(),
    ensures
        r == canonical_at(facts@, i as int),
{
    let f = &facts[i];
    let summary_chars = match &f.summary {
        Some(s) => chars_of(s.as_str()),
        None => Vec::new(),
    };
    assert(summary_chars@ == opt_text(f.summary));
    let lowered = lower_exec(&summary_chars);
    if contains_str(&lowered, "metapackage") {
        return true;
    }
    if has_entry_exec(f) {
        return false;
    }
    match &bases[i] {
        Some(b) => {
            if *b != f.name {
                return false;
            }
        },
        None => {
            return false;
        },
    }
    let mut j: usize = 0;
    while j < facts.len()
        invariant
            i < facts@.len(),
            bases@.len() == facts@.len(),
            forall|k: int|
                0 <= k < facts@.len() ==> opt_view(#[trigger] bases@[k]) == facts@[k].base(),
            j <= facts@.len(),
            !facts@[i as int].has_entry(),
            facts@[i as int].base() == Some(facts@[i as int].name@),
            forall|k: int|
                #![trigger facts@[k]]
                0 <= k < j ==> !(k != i && facts@[k].base() == facts@[i as int].base()
                    && facts@[k].has_entry()),
        decreases facts.len() - j,
    {
        if j != i && opt_eq(&bases[j], &bases[i]) && has_entry_exec(&facts[j]) {
            assert(facts@[j as int].base() == facts@[i as int].base());
            return true;
        }
        j = j + 1;
    }
    false
}

/// The intrinsic score and evidence of a package.
fn intrinsic_score(f: &PackageFacts, canonical: bool, role: PackageRole) -> (r: (i32, Vec<RootEvidence>))
    ensures
        r.0 == score_with_role(*f, canonical, role),
        r.1@ == evidence_of(*f, canonical),
{
    let mut score: i32 = 0;
    let mut evidence: Vec<RootEvidence> = Vec::new();
    if f.user_installed {
        score = score + SCORE_USER_INSTALLED;
        evidence.push(RootEvidence::DnfUserInstalled);
    }
    if canonical {
        score = score + SCORE_CANONICAL;
        evidence.push(RootEvidence::CanonicalProjectPackage);
    }
    if role == PackageRole::Application {
        score = score + SCORE_APPLICATION_ROLE;
    }
    if f.has_desktop_entry {
        score = score + SCORE_DESKTOP_ENTRY;
        evidence.push(RootEvidence::DesktopEntry);
    }
    if f.has_app_bundle {
        score = score + SCORE_APP_BUNDLE;
        evidence.push(RootEvidence::ApplicationBundle);
    }
    if f.has_executable {
        score = score + SCORE_EXECUTABLE;
        evidence.push(RootEvidence::Executable);
    }
    if role.is_supporting() {
        score = score + SCORE_SUPPORTING_ROLE;
    }
    assert(evidence@ =~= evidence_of(*f, canonical));
    (score, evidence)
}

proof fn lemma_last_named_bounds(fs: Seq<PackageFacts>, name: Seq<char>)
    ensures
        last_named(fs, name) matches Some(j) ==> 0 <= j < fs.len() && fs[j].name@ == name,
    decreases fs.len(),
{
    if fs.len() > 0 && fs.last().name@ != name {
        lemma_last_named_bounds(fs.drop_last(), name);
    }
}

/// The position of the last package named `name`.
fn last_named_exec(facts: &[PackageFacts], name: &String) -> (r: Option<usize>)
    ensures
        match r {
            Some(j) => last_named(facts@, name@) == Some(j as int) && j < facts@.len(),
            None => last_named(facts@, name@) is None,
        },
{
    let mut k: usize = facts.len();
    assert(facts@.take(k as int) =~= facts@);
    while k > 0
        invariant
            k <= facts@.len(),
            last_named(facts@, name@) == last_named(facts@.take(k as int), name@),
        decreases k,
    {
        let ghost t = facts@.take(k as int);
        assert(t.drop_last() =~= facts@.take(k - 1));
        if facts[k - 1].name == *name {
            return Some(k - 1);
        }
        k = k - 1;
    }
    None
}

/// Whether another candidate of the same project, not a development package,
/// depends on package `i`.
fn other_consumer_exec(facts: &[PackageFacts], deps: &DependentsMap, t: &Tables, i: usize) -> (r:
    bool)
    requires
        i < facts@.len(),
        tables_ok(t, facts@),
    ensures
        r == other_consumer(facts@, *deps, i as int),
{
    let mut k: usize = 0;
    while k < facts.len()
        invariant
            i < facts@.len(),
            tables_ok(t, facts@),
            k <= facts@.len(),
            forall|m: int|
                #![trigger facts@[m]]
                0 <= m < k ==> !(m != i && candidate_at(facts@, m) && facts@[m].role()
                    != PackageRole::Development && same_project(facts@[i as int], facts@[m])
                    && deps.depends(facts@[i as int].name@, facts@[m].name@)),
        decreases facts.len() - k,
    {
        if k != i && t.candidate[k] && t.roles[k] != PackageRole::Development && same_project_exec(
            &facts[i],
            &t.bases[i],
            &facts[k],
            &t.bases[k],
        ) && deps.has_dependent(&facts[k].name, &facts[i].name) {
            assert(facts@[k as int].role() != PackageRole::Development);
            return true;
        }
        k = k + 1;
    }
    false
}

/// The demotion that the dependent named `d` brings to candidate `i`.
fn dependent_demotion_exec(
    facts: &[PackageFacts],
    deps: &DependentsMap,
    t: &Tables,
    i: usize,
    d: &String,
) -> (r: Vec<DemotionReason>)
    requires
        i < facts@.len(),
        tables_ok(t, facts@),
    ensures
        demotion_views(r@) == dependent_demotion(facts@, *deps, i as int, d@),
{
    let mut r: Vec<DemotionReason> = Vec::new();
    let j = match last_named_exec(facts, d) {
        Some(j) => j,
        None => {
            assert(demotion_views(r@) =~= Seq::<Demotion>::empty());
            return r;
        },
    };
    assert(opt_view(t.bases@[i as int]) == facts@[i as int].base());
    assert(opt_view(t.bases@[j as int]) == facts@[j as int].base());
    if j == i || !same_project_exec(&facts[i], &t.bases[i], &facts[j], &t.bases[j]) {
        assert(demotion_views(r@) =~= Seq::<Demotion>::empty());
        return r;
    }
    if t.roles[j] == PackageRole::Development {
        if !other_consumer_exec(facts, deps, t, i) {
            r.push(DemotionReason::ToolchainComponentOf(d.clone()));
        }
    } else if !t.candidate[j] {
    } else if t.intrinsic[j] > t.intrinsic[i] || (t.intrinsic[j] == t.intrinsic[i]
        && !deps.has_dependent(&facts[j].name, &facts[i].name)) {
        r.push(DemotionReason::ComponentOf(d.clone()));
    }
    assert(demotion_views(r@) =~= dependent_demotion(facts@, *deps, i as int, d@));
    r
}

proof fn lemma_cover_bounds(fs: Seq<PackageFacts>, i: int, n: int)
    ensures
        strongest_cover(fs, i, n) matches Some(j) ==> 0 <= j < n && stronger_at(fs, i, j),
    decreases n,
{
    if n > 0 {
        lemma_cover_bounds(fs, i, n - 1);
    }
}

/// The stronger package that covers the project best: the highest intrinsic
/// score, ties going to the name that comes first.
fn strongest_cover_exec(facts: &[PackageFacts], t: &Tables, i: usize) -> (r: Option<usize>)
    requires
        i < facts@.len(),
        tables_ok(t, facts@),
    ensures
        match r {
            Some(j) => strongest_cover(facts@, i as int, facts@.len() as int) == Some(j as int)
                && j < facts@.len(),
            None => strongest_cover(facts@, i as int, facts@.len() as int) is None,
        },
{
    let mut best: Option<usize> = None;
    let mut j: usize = 0;
    while j < facts.len()
        invariant
            i < facts@.len(),
            tables_ok(t, facts@),
            j <= facts@.len(),
            match best {
                Some(k) => strongest_cover(facts@, i as int, j as int) == Some(k as int) && k < j,
                None => strongest_cover(facts@, i as int, j as int) is None,
            },
        decreases facts.len() - j,
    {
        assert(opt_view(t.bases@[i as int]) == facts@[i as int].base());
        assert(opt_view(t.bases@[j as int]) == facts@[j as int].base());
        if j != i && t.candidate[j] && t.intrinsic[j] > t.intrinsic[i] && same_project_exec(
            &facts[i],
            &t.bases[i],
            &facts[j],
            &t.bases[j],
        ) {
            match best {
                Some(k) => {
                    if t.intrinsic[j] > t.intrinsic[k] || (t.intrinsic[j] == t.intrinsic[k]
                        && text_less(facts[j].name.as_str(), facts[k].name.as_str())) {
                        best = Some(j);
                    }
                },
                None => {
                    best = Some(j);
                },
            }
        }
        j = j + 1;
    }
    best
}

proof fn lemma_dependent_demotions_len(
    fs: Seq<PackageFacts>,
    deps: DependentsMap,
    i: int,
    ds: Seq<Seq<char>>,
)
    ensures
        dependent_demotions(fs, deps, i, ds).len() <= ds.len(),
    decreases ds.len(),
{
    if ds.len() > 0 {
        lemma_dependent_demotions_len(fs, deps, i, ds.drop_last());
    }
}

proof fn lemma_project_count_le(ds: Seq<Demotion>)
    ensures
        project_count(ds) <= ds.len(),
    decreases ds.len(),
{
    if ds.len() > 0 {
        lemma_project_count_le(ds.drop_last());
    }
}

/// Whether a demotion ties the package to another package of its project.
fn is_project_reason(d: &DemotionReason) -> (r: bool)
    ensures
        r == d@.is_project(),
{
    match d {
        DemotionReason::ComponentOf(_) => true,
        DemotionReason::ToolchainComponentOf(_) => true,
        DemotionReason::CoveredBy(_) => true,
        _ => false,
    }
}

/// The demotions of candidate `i`, in the order the policy records them.
fn candidate_demotions_exec(facts: &[PackageFacts], deps: &DependentsMap, t: &Tables, i: usize) -> (r:
    Vec<DemotionReason>)
    requires
        i < facts@.len(),
        tables_ok(t, facts@),
    ensures
        demotion_views(r@) == candidate_demotions(facts@, *deps, i as int),
{
    let f = &facts[i];
    let mut r: Vec<DemotionReason> = Vec::new();
    if !f.user_installed {
        r.push(DemotionReason::NotUserInstalled);
    }
    let role = t.roles[i];
    if role.is_supporting() {
        r.push(DemotionReason::SupportingRole(role));
    }
    let ghost b = demotion_views(r@);
    match deps.get(&f.name) {
        Some(ds) => {
            let ghost dv = string_views(ds@);
            assert(dv.take(0) =~= Seq::<Seq<char>>::empty());
            assert(demotion_views(r@) =~= b + dependent_demotions(facts@, *deps, i as int, dv.take(0)));
            let mut k: usize = 0;
            while k < ds.len()
                invariant
                    i < facts@.len(),
                    tables_ok(t, facts@),
                    dv == string_views(ds@),
                    k <= ds.len(),
                    demotion_views(r@) == b + dependent_demotions(
                        facts@,
                        *deps,
                        i as int,
                        dv.take(k as int),
                    ),
                decreases ds.len() - k,
            {
                let mut d = dependent_demotion_exec(facts, deps, t, i, &ds[k]);
                let ghost before = demotion_views(r@);
                let ghost dd = demotion_views(d@);
                match d.pop() {
                    Some(x) => {
                        r.push(x);
                        assert(dd.len() == 1);
                        assert(demotion_views(r@) =~= before + dd);
                    },
                    None => {
                        assert(demotion_views(r@) =~= before + dd);
                    },
                }
                let ghost tk = dv.take(k + 1);
                assert(tk.drop_last() =~= dv.take(k as int));
                assert(tk.last() == ds@[k as int]@);
                k = k + 1;
                assert(demotion_views(r@) =~= b + dependent_demotions(
                    facts@,
                    *deps,
                    i as int,
                    dv.take(k as int),
                ));
            }
            assert(dv.take(ds.len() as int) =~= dv);
        },
        None => {},
    }
    let ghost c = demotion_views(r@);
    match strongest_cover_exec(facts, t, i) {
        Some(j) => {
            r.push(DemotionReason::CoveredBy(facts[j].name.clone()));
            assert(demotion_views(r@) =~= c.push(Demotion::CoveredBy(facts@[j as int].name@)));
        },
        None => {},
    }
    r
}

/// Classify all packages and decide which are intentional roots.
///
/// `dependents` maps a package name to the installed packages that directly
/// depend on it (incoming `DependsOn` edges). The result holds one decision
/// per package, in input order; each decision does not depend on that order
/// (`law_decisions_independent_of_input_order`). Scores are `i32`s, so the
/// penalties of the project-level demotions must fit one.
pub fn classify_packages(facts: &[PackageFacts], dependents: &DependentsMap) -> (r: Vec<
    PackageDecision,
>)
    requires
        scores_fit(facts@, *dependents),
    ensures
        r@.len() == facts@.len(),
        forall|i: int| 0 <= i < facts@.len() ==> decided(#[trigger] r@[i], facts@, *dependents, i),
{
    let n = facts.len();
    let mut bases: Vec<Option<String>> = Vec::new();
    let mut roles: Vec<PackageRole> = Vec::new();
    let mut i: usize = 0;
    while i < n
        invariant
            n == facts@.len(),
            i <= n,
            bases@.len() == i,
            roles@.len() == i,
            forall|k: int| 0 <= k < i ==> opt_view(#[trigger] bases@[k]) == facts@[k].base(),
            forall|k: int| 0 <= k < i ==> #[trigger] roles@[k] == facts@[k].role(),
        decreases n - i,
    {
        bases.push(facts[i].source_base());
        roles.push(role_exec(&facts[i]));
        i = i + 1;
    }
    let mut canonical: Vec<bool> = Vec::new();
    let mut intrinsic: Vec<i32> = Vec::new();
    let mut candidate: Vec<bool> = Vec::new();
    i = 0;
    while i < n
        invariant
            n == facts@.len(),
            i <= n,
            bases@.len() == n,
            roles@.len() == n,
            forall|k: int| 0 <= k < n ==> opt_view(#[trigger] bases@[k]) == facts@[k].base(),
            forall|k: int| 0 <= k < n ==> #[trigger] roles@[k] == facts@[k].role(),
            canonical@.len() == i,
            intrinsic@.len() == i,
            candidate@.len() == i,
            forall|k: int| 0 <= k < i ==> #[trigger] canonical@[k] == canonical_at(facts@, k),
            forall|k: int| 0 <= k < i ==> #[trigger] intrinsic@[k] == intrinsic_at(facts@, k),
            forall|k: int| 0 <= k < i ==> #[trigger] candidate@[k] == candidate_at(facts@, k),
        decreases n - i,
    {
        let c = is_canonical(facts, &bases, i);
        let (sc, _ev) = intrinsic_score(&facts[i], c, roles[i]);
        canonical.push(c);
        intrinsic.push(sc);
        candidate.push(sc >= ROOT_THRESHOLD);
        i = i + 1;
    }
    let t = Tables { bases, roles, intrinsic, candidate };
    assert(tables_ok(&t, facts@));
    let mut result: Vec<PackageDecision> = Vec::new();
    i = 0;
    while i < n
        invariant
            n == facts@.len(),
            i <= n,
            tables_ok(&t, facts@),
            scores_fit(facts@, *dependents),
            canonical@.len() == n,
            forall|k: int| 0 <= k < n ==> #[trigger] canonical@[k] == canonical_at(facts@, k),
            result@.len() == i,
            forall|k: int| 0 <= k < i ==> decided(#[trigger] result@[k], facts@, *dependents, k),
        decreases n - i,
    {
        let f = &facts[i];
        let pre = if t.candidate[i] {
            candidate_demotions_exec(facts, dependents, &t, i)
        } else {
            Vec::new()
        };
        let ghost pv = demotion_views(pre@);
        assert(pv == pre_demotions(facts@, *dependents, i as int));
        proof {
            lemma_project_count_le(pv);
            match dependents.dependents(f.name@) {
                Some(ds) => {
                    lemma_dependent_demotions_len(facts@, *dependents, i as int, ds);
                },
                None => {},
            }
        }
        let mut count: usize = 0;
        let mut k: usize = 0;
        while k < pre.len()
            invariant
                k <= pre.len(),
                pv == demotion_views(pre@),
                count == project_count(pv.take(k as int)),
                count <= k,
            decreases pre.len() - k,
        {
            let ghost tk = pv.take(k + 1);
            assert(tk.drop_last() =~= pv.take(k as int));
            if is_project_reason(&pre[k]) {
                count = count + 1;
            }
            k = k + 1;
        }
        assert(pv.take(pre.len() as int) =~= pv);
        assert(count == project_count(pre_demotions(facts@, *dependents, i as int)));
        assert(score_at(facts@, *dependents, i as int) >= i32::MIN);
        assert(count <= 214_748_364);
        proof {
            lemma_intrinsic_range(facts@[i as int], canonical_at(facts@, i as int));
        }
        let score: i32 = t.intrinsic[i] + SCORE_PROJECT_DEMOTION * (count as i32);
        let role = t.roles[i];
        let is_root = f.user_installed && !role.is_supporting() && count == 0 && score
            >= ROOT_THRESHOLD;
        let mut demotions = pre;
        if !is_root && demotions.len() == 0 {
            let fallback = if !f.user_installed {
                DemotionReason::NotUserInstalled
            } else if role.is_supporting() {
                DemotionReason::SupportingRole(role)
            } else {
                DemotionReason::NoUserFacingEntryPoint
            };
            demotions.push(fallback);
            assert(demotion_views(demotions@) =~= seq![fallback_demotion(facts@[i as int])]);
        }
        let (_sc, evidence) = intrinsic_score(f, canonical[i], role);
        let decision = PackageDecision {
            name: f.name.clone(),
            role,
            intrinsic_score: t.intrinsic[i],
            score,
            is_root,
            evidence,
            demotions,
        };
        assert(decided(decision, facts@, *dependents, i as int));
        result.push(decision);
        i = i + 1;
    }
    result
}

/// A root is user-installed, of a user-facing role, and scores at least the
/// threshold after project-level demotions.
pub proof fn law_roots_are_intentional_applications(
    fs: Seq<PackageFacts>,
    deps: DependentsMap,
    i: int,
)
    requires
        0 <= i < fs.len(),
    ensures
        root_at(fs, deps, i) ==> fs[i].user_installed && fs[i].role() == PackageRole::Application
            && score_at(fs, deps, i) >= ROOT_THRESHOLD,
{
}

/// Every package that is not a root carries at least one reason why.
pub proof fn law_non_roots_are_explained(fs: Seq<PackageFacts>, deps: DependentsMap, i: int)
    requires
        0 <= i < fs.len(),
    ensures
        !root_at(fs, deps, i) ==> demotions_at(fs, deps, i).len() > 0,
{
}

/// A package that DNF does not mark as user-installed is never a root, and
/// its demotions say so.
pub proof fn law_not_user_installed_is_not_a_root(
    fs: Seq<PackageFacts>,
    deps: DependentsMap,
    i: int,
)
    requires
        0 <= i < fs.len(),
        !fs[i].user_installed,
    ensures
        !root_at(fs, deps, i),
        demotions_at(fs, deps, i).contains(Demotion::NotUserInstalled),
{
    let pre = pre_demotions(fs, deps, i);
    if candidate_at(fs, i) {
        let f = fs[i];
        let a = seq![Demotion::NotUserInstalled];
        let b = if f.role().supporting() {
            a.push(Demotion::SupportingRole(f.role()))
        } else {
            a
        };
        assert(b[0] == Demotion::NotUserInstalled);
        let c = match deps.dependents(f.name@) {
            Some(ds) => b + dependent_demotions(fs, deps, i, ds),
            None => b,
        };
        assert(c[0] == Demotion::NotUserInstalled);
        assert(pre[0] == Demotion::NotUserInstalled);
    } else {
        assert(demotions_at(fs, deps, i)[0] == Demotion::NotUserInstalled);
    }
}

/// A user-installed package whose metadata gives it a supporting role is
/// never a root, and it is demoted by that role, even when it ships an
/// executable.
pub proof fn law_supporting_roles_are_not_roots(fs: Seq<PackageFacts>, deps: DependentsMap, i: int)
    requires
        0 <= i < fs.len(),
        fs[i].user_installed,
        fs[i].role().supporting(),
    ensures
        !root_at(fs, deps, i),
        demotions_at(fs, deps, i).contains(Demotion::SupportingRole(fs[i].role())),
{
    let pre = pre_demotions(fs, deps, i);
    let f = fs[i];
    if candidate_at(fs, i) {
        let b = seq![Demotion::SupportingRole(f.role())];
        let c = match deps.dependents(f.name@) {
            Some(ds) => b + dependent_demotions(fs, deps, i, ds),
            None => b,
        };
        assert(c[0] == Demotion::SupportingRole(f.role()));
        assert(pre[0] == Demotion::SupportingRole(f.role()));
    } else {
        assert(demotions_at(fs, deps, i)[0] == Demotion::SupportingRole(f.role()));
    }
}


// ---------------------------------------------------------------------------
// Independence from input order
// ---------------------------------------------------------------------------

/// No two packages share a name.
pub open spec fn unique_names(fs: Seq<PackageFacts>) -> bool {
    forall|a: int, b: int|
        #![trigger fs[a], fs[b]]
        0 <= a < fs.len() && 0 <= b < fs.len() && a != b ==> fs[a].name@ != fs[b].name@
}

/// `gs` holds the same packages as `fs`, each under its own name, in some
/// other order.
pub open spec fn reordering(fs: Seq<PackageFacts>, gs: Seq<PackageFacts>) -> bool {
    &&& unique_names(fs)
    &&& unique_names(gs)
    &&& forall|k: int| 0 <= k < gs.len() ==> fs.contains(#[trigger] gs[k])
    &&& forall|i: int| 0 <= i < fs.len() ==> gs.contains(#[trigger] fs[i])
}

/// The position in `gs` of a package of `fs`.
spec fn position_in(gs: Seq<PackageFacts>, f: PackageFacts) -> int {
    choose|k: int| 0 <= k < gs.len() && gs[k] == f
}

proof fn lemma_same_position(gs: Seq<PackageFacts>, a: int, b: int)
    requires
        unique_names(gs),
        0 <= a < gs.len(),
        0 <= b < gs.len(),
        gs[a].name@ == gs[b].name@,
    ensures
        a == b,
{
}

proof fn lemma_canonical_reordered(fs: Seq<PackageFacts>, gs: Seq<PackageFacts>, i: int, k: int)
    requires
        reordering(fs, gs),
        0 <= i < fs.len(),
        0 <= k < gs.len(),
        gs[k] == fs[i],
    ensures
        canonical_at(gs, k) == canonical_at(fs, i),
        intrinsic_at(gs, k) == intrinsic_at(fs, i),
        candidate_at(gs, k) == candidate_at(fs, i),
{
    let exists_fs = exists|j: int|
        #![trigger fs[j]]
        0 <= j < fs.len() && j != i && fs[j].base() == fs[i].base() && fs[j].has_entry();
    let exists_gs = exists|j: int|
        #![trigger gs[j]]
        0 <= j < gs.len() && j != k && gs[j].base() == gs[k].base() && gs[j].has_entry();
    if exists_fs {
        let j = choose|j: int|
            #![trigger fs[j]]
            0 <= j < fs.len() && j != i && fs[j].base() == fs[i].base() && fs[j].has_entry();
        assert(gs.contains(fs[j]));
        let jj = position_in(gs, fs[j]);
        if jj == k {
            assert(fs[j].name@ == fs[i].name@);
        }
        assert(gs[jj].base() == gs[k].base() && gs[jj].has_entry());
        assert(exists_gs);
    }
    if exists_gs {
        let j = choose|j: int|
            #![trigger gs[j]]
            0 <= j < gs.len() && j != k && gs[j].base() == gs[k].base() && gs[j].has_entry();
        assert(fs.contains(gs[j]));
        let jj = position_in(fs, gs[j]);
        if jj == i {
            assert(gs[j].name@ == gs[k].name@);
        }
        assert(fs[jj].base() == fs[i].base() && fs[jj].has_entry());
        assert(exists_fs);
    }
}

proof fn lemma_last_named_found(fs: Seq<PackageFacts>, name: Seq<char>, j: int)
    requires
        0 <= j < fs.len(),
        fs[j].name@ == name,
    ensures
        last_named(fs, name) is Some,
    decreases fs.len(),
{
    if fs.last().name@ != name {
        lemma_last_named_found(fs.drop_last(), name, j);
    }
}

/// With unique names, the position of a name is the one package carrying it.
proof fn lemma_last_named_unique(fs: Seq<PackageFacts>, name: Seq<char>)
    requires
        unique_names(fs),
    ensures
        last_named(fs, name) matches Some(j) ==> 0 <= j < fs.len() && fs[j].name@ == name,
        last_named(fs, name) is None ==> forall|j: int|
            0 <= j < fs.len() ==> #[trigger] fs[j].name@ != name,
{
    lemma_last_named_bounds(fs, name);
    if last_named(fs, name) is None {
        assert forall|j: int| 0 <= j < fs.len() implies #[trigger] fs[j].name@ != name by {
            if fs[j].name@ == name {
                lemma_last_named_found(fs, name, j);
            }
        }
    }
}

proof fn lemma_other_consumer_reordered(
    fs: Seq<PackageFacts>,
    gs: Seq<PackageFacts>,
    deps: DependentsMap,
    i: int,
    k: int,
)
    requires
        reordering(fs, gs),
        0 <= i < fs.len(),
        0 <= k < gs.len(),
        gs[k] == fs[i],
    ensures
        other_consumer(gs, deps, k) == other_consumer(fs, deps, i),
{
    if other_consumer(fs, deps, i) {
        let j = choose|j: int|
            #![trigger fs[j]]
            0 <= j < fs.len() && j != i && candidate_at(fs, j) && fs[j].role()
                != PackageRole::Development && same_project(fs[i], fs[j]) && deps.depends(
                fs[i].name@,
                fs[j].name@,
            );
        assert(gs.contains(fs[j]));
        let jj = position_in(gs, fs[j]);
        lemma_canonical_reordered(fs, gs, j, jj);
        if jj == k {
            assert(fs[j].name@ == fs[i].name@);
        }
        assert(gs[jj] == fs[j]);
    }
    if other_consumer(gs, deps, k) {
        let j = choose|j: int|
            #![trigger gs[j]]
            0 <= j < gs.len() && j != k && candidate_at(gs, j) && gs[j].role()
                != PackageRole::Development && same_project(gs[k], gs[j]) && deps.depends(
                gs[k].name@,
                gs[j].name@,
            );
        assert(fs.contains(gs[j]));
        let jj = position_in(fs, gs[j]);
        lemma_canonical_reordered(fs, gs, jj, j);
        if jj == i {
            assert(gs[j].name@ == gs[k].name@);
        }
        assert(fs[jj] == gs[j]);
    }
}

proof fn lemma_dependent_demotion_reordered(
    fs: Seq<PackageFacts>,
    gs: Seq<PackageFacts>,
    deps: DependentsMap,
    i: int,
    k: int,
    d: Seq<char>,
)
    requires
        reordering(fs, gs),
        0 <= i < fs.len(),
        0 <= k < gs.len(),
        gs[k] == fs[i],
    ensures
        dependent_demotion(gs, deps, k, d) == dependent_demotion(fs, deps, i, d),
{
    lemma_last_named_unique(fs, d);
    lemma_last_named_unique(gs, d);
    lemma_canonical_reordered(fs, gs, i, k);
    lemma_other_consumer_reordered(fs, gs, deps, i, k);
    match last_named(fs, d) {
        None => {
            if let Some(jj) = last_named(gs, d) {
                assert(fs.contains(gs[jj]));
                let j = position_in(fs, gs[jj]);
                assert(fs[j].name@ == d);
            }
        },
        Some(j) => {
            assert(gs.contains(fs[j]));
            let jj = position_in(gs, fs[j]);
            assert(gs[jj].name@ == d);
            let jg = last_named(gs, d)->0;
            lemma_same_position(gs, jj, jg);
            lemma_canonical_reordered(fs, gs, j, jj);
            if jj == k {
                assert(fs[j].name@ == fs[i].name@);
            }
        },
    }
}

proof fn lemma_dependent_demotions_reordered(
    fs: Seq<PackageFacts>,
    gs: Seq<PackageFacts>,
    deps: DependentsMap,
    i: int,
    k: int,
    ds: Seq<Seq<char>>,
)
    requires
        reordering(fs, gs),
        0 <= i < fs.len(),
        0 <= k < gs.len(),
        gs[k] == fs[i],
    ensures
        dependent_demotions(gs, deps, k, ds) == dependent_demotions(fs, deps, i, ds),
    decreases ds.len(),
{
    if ds.len() > 0 {
        lemma_dependent_demotions_reordered(fs, gs, deps, i, k, ds.drop_last());
        lemma_dependent_demotion_reordered(fs, gs, deps, i, k, ds.last());
    }
}

proof fn lemma_better_asymmetric(fs: Seq<PackageFacts>, j: int, k: int)
    ensures
        !(better_cover(fs, j, k) && better_cover(fs, k, j)),
{
    lemma_text_trichotomy(fs[j].name@, fs[k].name@);
}

proof fn lemma_better_transitive(fs: Seq<PackageFacts>, a: int, b: int, c: int)
    requires
        better_cover(fs, a, b),
        better_cover(fs, b, c),
    ensures
        better_cover(fs, a, c),
{
    if intrinsic_at(fs, a) == intrinsic_at(fs, b) && intrinsic_at(fs, b) == intrinsic_at(fs, c) {
        lemma_text_lt_transitive(fs[a].name@, fs[b].name@, fs[c].name@);
    }
}

proof fn lemma_better_total(fs: Seq<PackageFacts>, j: int, k: int)
    requires
        fs[j].name@ != fs[k].name@,
    ensures
        better_cover(fs, j, k) || better_cover(fs, k, j),
{
    lemma_text_trichotomy(fs[j].name@, fs[k].name@);
}

proof fn lemma_cover_exists(fs: Seq<PackageFacts>, i: int, n: int, j: int)
    requires
        0 <= j < n,
        stronger_at(fs, i, j),
    ensures
        strongest_cover(fs, i, n) is Some,
    decreases n,
{
    if j < n - 1 {
        lemma_cover_exists(fs, i, n - 1, j);
    }
}

/// No stronger package covers the project better than the one chosen.
proof fn lemma_cover_unbeaten(fs: Seq<PackageFacts>, i: int, n: int)
    ensures
        strongest_cover(fs, i, n) matches Some(c) ==> forall|j: int|
            0 <= j < n && stronger_at(fs, i, j) && j != c ==> !#[trigger] better_cover(fs, j, c),
    decreases n,
{
    if n > 0 {
        lemma_cover_unbeaten(fs, i, n - 1);
        lemma_cover_bounds(fs, i, n - 1);
        let prev = strongest_cover(fs, i, n - 1);
        if let Some(c) = strongest_cover(fs, i, n) {
            assert forall|j: int|
                0 <= j < n && stronger_at(fs, i, j) && j != c implies !#[trigger] better_cover(
                fs,
                j,
                c,
            ) by {
                match prev {
                    Some(p) => {
                        if c == n - 1 && c != p {
                            // the new package beat the previous choice
                            lemma_better_asymmetric(fs, p, c);
                            if j != p && better_cover(fs, j, c) {
                                lemma_better_transitive(fs, j, c, p);
                            }
                        }
                    },
                    None => {
                        if j < n - 1 {
                            lemma_cover_exists(fs, i, n - 1, j);
                        }
                    },
                }
            }
        }
    }
}

proof fn lemma_covered_reordered(fs: Seq<PackageFacts>, gs: Seq<PackageFacts>, i: int, k: int)
    requires
        reordering(fs, gs),
        0 <= i < fs.len(),
        0 <= k < gs.len(),
        gs[k] == fs[i],
    ensures
        (strongest_cover(gs, k, gs.len() as int) is Some) == (strongest_cover(
            fs,
            i,
            fs.len() as int,
        ) is Some),
        strongest_cover(fs, i, fs.len() as int) matches Some(cf) ==> strongest_cover(
            gs,
            k,
            gs.len() as int,
        ) matches Some(cg) && gs[cg].name@ == fs[cf].name@,
{
    lemma_canonical_reordered(fs, gs, i, k);
    lemma_cover_bounds(fs, i, fs.len() as int);
    lemma_cover_bounds(gs, k, gs.len() as int);
    if let Some(j) = strongest_cover(fs, i, fs.len() as int) {
        assert(gs.contains(fs[j]));
        let jj = position_in(gs, fs[j]);
        lemma_canonical_reordered(fs, gs, j, jj);
        if jj == k {
            assert(fs[j].name@ == fs[i].name@);
        }
        assert(stronger_at(gs, k, jj));
        lemma_cover_exists(gs, k, gs.len() as int, jj);
    }
    if let Some(jj) = strongest_cover(gs, k, gs.len() as int) {
        assert(fs.contains(gs[jj]));
        let j = position_in(fs, gs[jj]);
        lemma_canonical_reordered(fs, gs, j, jj);
        if j == i {
            assert(gs[jj].name@ == gs[k].name@);
        }
        assert(stronger_at(fs, i, j));
        lemma_cover_exists(fs, i, fs.len() as int, j);
    }
    if let Some(cf) = strongest_cover(fs, i, fs.len() as int) {
        let cg = strongest_cover(gs, k, gs.len() as int)->0;
        // where each choice stands in the other order
        assert(gs.contains(fs[cf]));
        let x = position_in(gs, fs[cf]);
        assert(fs.contains(gs[cg]));
        let y = position_in(fs, gs[cg]);
        lemma_canonical_reordered(fs, gs, cf, x);
        lemma_canonical_reordered(fs, gs, y, cg);
        if x == k {
            assert(fs[cf].name@ == fs[i].name@);
        }
        if y == i {
            assert(gs[cg].name@ == gs[k].name@);
        }
        assert(stronger_at(gs, k, x));
        assert(stronger_at(fs, i, y));
        lemma_cover_unbeaten(fs, i, fs.len() as int);
        lemma_cover_unbeaten(gs, k, gs.len() as int);
        if gs[cg].name@ != fs[cf].name@ {
            assert(x != cg);
            assert(y != cf);
            assert(!better_cover(gs, x, cg));
            assert(!better_cover(fs, y, cf));
            assert(better_cover(gs, x, cg) == better_cover(fs, cf, y));
            lemma_better_total(fs, cf, y);
        }
    }
}

/// The classification does not depend on the order in which the packages
/// are given: the same package, at any position of a reordering of the
/// input, gets the same decision — the same intrinsic score, final score,
/// root flag, evidence and demotions.
pub proof fn law_decisions_independent_of_input_order(
    fs: Seq<PackageFacts>,
    gs: Seq<PackageFacts>,
    deps: DependentsMap,
    i: int,
    k: int,
)
    requires
        reordering(fs, gs),
        0 <= i < fs.len(),
        0 <= k < gs.len(),
        gs[k] == fs[i],
    ensures
        intrinsic_at(gs, k) == intrinsic_at(fs, i),
        score_at(gs, deps, k) == score_at(fs, deps, i),
        root_at(gs, deps, k) == root_at(fs, deps, i),
        evidence_of(gs[k], canonical_at(gs, k)) == evidence_of(fs[i], canonical_at(fs, i)),
        demotions_at(gs, deps, k) == demotions_at(fs, deps, i),
        forall|d: PackageDecision|
            #[trigger] decided(d, gs, deps, k) <==> decided(d, fs, deps, i),
{
    lemma_canonical_reordered(fs, gs, i, k);
    lemma_covered_reordered(fs, gs, i, k);
    let f = fs[i];
    match deps.dependents(f.name@) {
        Some(ds) => lemma_dependent_demotions_reordered(fs, gs, deps, i, k, ds),
        None => {},
    }
    if candidate_at(fs, i) {
        let a = if !f.user_installed {
            seq![Demotion::NotUserInstalled]
        } else {
            Seq::<Demotion>::empty()
        };
        let b = if f.role().supporting() {
            a.push(Demotion::SupportingRole(f.role()))
        } else {
            a
        };
        let c = match deps.dependents(f.name@) {
            Some(ds) => b + dependent_demotions(fs, deps, i, ds),
            None => b,
        };
        let pf = candidate_demotions(fs, deps, i);
        let pg = candidate_demotions(gs, deps, k);
        if let Some(cf) = strongest_cover(fs, i, fs.len() as int) {
            let cg = strongest_cover(gs, k, gs.len() as int)->0;
            assert(pf =~= c.push(Demotion::CoveredBy(fs[cf].name@)));
            assert(pg =~= c.push(Demotion::CoveredBy(gs[cg].name@)));
        } else {
            assert(pf =~= c);
            assert(pg =~= c);
        }
        assert(pf == pg);
    }
    assert(pre_demotions(gs, deps, k) == pre_demotions(fs, deps, i));
}


// ---------------------------------------------------------------------------
// Project grouping and roles
// ---------------------------------------------------------------------------

/// Belonging to one project is symmetric: `a` is of `b`'s project exactly
/// when `b` is of `a`'s.
pub proof fn law_same_project_symmetric(a: PackageFacts, b: PackageFacts)
    ensures
        same_project(a, b) == same_project(b, a),
{
}

/// A package whose name is another's name followed by `-` and more (such as
/// `docker-ce-cli` for `docker-ce`) belongs to that package's project, and
/// so do two packages built from the same source package.
pub proof fn law_name_extension_is_same_project(a: PackageFacts, b: PackageFacts)
    ensures
        (a.name@.len() > b.name@.len() && a.name@.subrange(0, b.name@.len() as int) == b.name@
            && a.name@[b.name@.len() as int] == '-') ==> same_project(a, b) && same_project(b, a),
        (a.base() is Some && a.base() == b.base()) ==> same_project(a, b) && same_project(b, a),
{
    let an = a.name@;
    let bn = b.name@;
    if an.len() > bn.len() && an.subrange(0, bn.len() as int) == bn && an[bn.len() as int] == '-' {
        assert(an.subrange(0, bn.push('-').len() as int) =~= bn.push('-'));
    }
}

/// Packaging conventions of the name decide the role, whatever the summary
/// says: a `perl-` name is a Perl module; a kernel name is a kernel
/// component unless it is a Perl module; and a name ending in `-devel` or
/// `-headers`, `-doc` or `-docs`, `-filesystem`, `-libs` or `-lib` gives a
/// development, documentation, filesystem or library role unless one of the
/// more specific roles (Perl module, kernel, firmware, system, and for the
/// later ones development, macro, documentation, asset) takes the package
/// first. Names are compared ignoring ASCII case.
pub proof fn law_name_conventions_decide_role(name: Seq<char>, summary: Seq<char>)
    ensures
        has_prefix(lower(name), "perl-"@) ==> role_of(name, summary) == PackageRole::PerlModule,
        (has_prefix(lower(name), "kernel"@) || has_prefix(lower(name), "kmod-"@) || has_prefix(
            lower(name),
            "akmod-"@,
        )) ==> role_of(name, summary) == PackageRole::Kernel || role_of(name, summary)
            == PackageRole::PerlModule,
        (has_suffix(lower(name), "-devel"@) || has_suffix(lower(name), "-headers"@)) ==> {
            let r = role_of(name, summary);
            r == PackageRole::Development || r == PackageRole::PerlModule || r
                == PackageRole::Kernel || r == PackageRole::Firmware || r == PackageRole::System
        },
        (has_suffix(lower(name), "-doc"@) || has_suffix(lower(name), "-docs"@)) ==> {
            let r = role_of(name, summary);
            r == PackageRole::Documentation || r == PackageRole::PerlModule || r
                == PackageRole::Kernel || r == PackageRole::Firmware || r == PackageRole::System
                || r == PackageRole::Development || r == PackageRole::Macro
        },
        has_suffix(lower(name), "-filesystem"@) ==> {
            let r = role_of(name, summary);
            r == PackageRole::Filesystem || r == PackageRole::PerlModule || r
                == PackageRole::Kernel || r == PackageRole::Firmware || r == PackageRole::System
                || r == PackageRole::Development || r == PackageRole::Macro || r
                == PackageRole::Documentation
        },
        (has_suffix(lower(name), "-libs"@) || has_suffix(lower(name), "-lib"@)) ==> {
            let r = role_of(name, summary);
            r == PackageRole::Library || r == PackageRole::PerlModule || r == PackageRole::Kernel
                || r == PackageRole::Firmware || r == PackageRole::System || r
                == PackageRole::Development || r == PackageRole::Macro || r
                == PackageRole::Documentation || r == PackageRole::Filesystem || r
                == PackageRole::Asset
        },
{
}


proof fn lemma_dependent_demotions_contain(
    fs: Seq<PackageFacts>,
    deps: DependentsMap,
    i: int,
    ds: Seq<Seq<char>>,
    d: Seq<char>,
    x: Demotion,
)
    requires
        ds.contains(d),
        dependent_demotion(fs, deps, i, d) == seq![x],
    ensures
        dependent_demotions(fs, deps, i, ds).contains(x),
    decreases ds.len(),
{
    let t = ds.drop_last();
    let rest = dependent_demotions(fs, deps, i, t);
    if ds.last() == d {
        let all = rest + seq![x];
        assert(all[rest.len() as int] == x);
    } else {
        let p = choose|p: int| 0 <= p < ds.len() && ds[p] == d;
        assert(t[p] == d);
        lemma_dependent_demotions_contain(fs, deps, i, t, d, x);
        let q = choose|q: int| 0 <= q < rest.len() && rest[q] == x;
        assert((rest + dependent_demotion(fs, deps, i, ds.last()))[q] == x);
    }
}

proof fn lemma_project_count_positive(ds: Seq<Demotion>, k: int)
    requires
        0 <= k < ds.len(),
        ds[k].is_project(),
    ensures
        project_count(ds) > 0,
    decreases ds.len(),
{
    if k < ds.len() - 1 {
        assert(ds.drop_last()[k] == ds[k]);
        lemma_project_count_positive(ds.drop_last(), k);
    }
}

/// A root candidate that another candidate of its project depends on, when
/// that other package is not a development package and is stronger (or as
/// strong, and not itself a dependency of the first), is only a component
/// of it: it is demoted as such and is not a root. So `docker-ce-cli`, on
/// which `docker-ce` depends, is a component of `docker-ce`.
pub proof fn law_components_of_stronger_packages_are_not_roots(
    fs: Seq<PackageFacts>,
    deps: DependentsMap,
    i: int,
    j: int,
)
    requires
        unique_names(fs),
        0 <= i < fs.len(),
        0 <= j < fs.len(),
        i != j,
        candidate_at(fs, i),
        candidate_at(fs, j),
        deps.dependents(fs[i].name@) matches Some(ds) && ds.contains(fs[j].name@),
        same_project(fs[i], fs[j]),
        fs[j].role() != PackageRole::Development,
        intrinsic_at(fs, j) > intrinsic_at(fs, i) || (intrinsic_at(fs, j) == intrinsic_at(fs, i)
            && !deps.depends(fs[i].name@, fs[j].name@)),
    ensures
        demotions_at(fs, deps, i).contains(Demotion::ComponentOf(fs[j].name@)),
        !root_at(fs, deps, i),
{
    let d = fs[j].name@;
    lemma_last_named_unique(fs, d);
    let lj = last_named(fs, d)->0;
    assert(fs[lj].name@ == d);
    if lj != j {
        assert(fs[lj].name@ == fs[j].name@);
    }
    assert(lj == j);
    let x = Demotion::ComponentOf(d);
    assert(dependent_demotion(fs, deps, i, d) == seq![x]);
    let ds = deps.dependents(fs[i].name@)->0;
    lemma_dependent_demotions_contain(fs, deps, i, ds, d, x);
    let f = fs[i];
    let a = if !f.user_installed {
        seq![Demotion::NotUserInstalled]
    } else {
        Seq::<Demotion>::empty()
    };
    let b = if f.role().supporting() {
        a.push(Demotion::SupportingRole(f.role()))
    } else {
        a
    };
    let c = b + dependent_demotions(fs, deps, i, ds);
    let dd = dependent_demotions(fs, deps, i, ds);
    let q = choose|q: int| 0 <= q < dd.len() && dd[q] == x;
    assert(c[b.len() + q] == x);
    let pre = candidate_demotions(fs, deps, i);
    assert(pre[b.len() + q] == x) by {
        match strongest_cover(fs, i, fs.len() as int) {
            Some(cv) => assert(pre == c.push(Demotion::CoveredBy(fs[cv].name@))),
            None => assert(pre == c),
        }
    }
    assert(pre_demotions(fs, deps, i) == pre);
    lemma_project_count_positive(pre, b.len() + q);
    assert(demotions_at(fs, deps, i) == pre);
}

} // verus!
