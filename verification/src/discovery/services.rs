//! systemd units, as the service manager reports them.
use vstd::prelude::*;

use crate::seqs::{first_match, lemma_filter_step, lemma_first_match_at, lemma_first_match_none};
use crate::stamp::now_rfc3339;
use crate::text::{chars_of, last_index_of, string_of_range, str_eq};

verus! {

/// The type of systemd unit (service, socket, timer, etc.)
#[derive(Debug, Clone, PartialEq, Eq, Hash)]
pub enum UnitType {
    Service,
    Socket,
    Timer,
    Mount,
    Automount,
    Slice,
    Scope,
    Target,
    Path,
    Other(String),
}

/// A unit type with its free-form name taken by its view.
pub enum UnitKind {
    Service,
    Socket,
    Timer,
    Mount,
    Automount,
    Slice,
    Scope,
    Target,
    Path,
    Other(Seq<char>),
}

impl View for UnitType {
    type V = UnitKind;

    open spec fn view(&self) -> UnitKind {
        match self {
            UnitType::Service => UnitKind::Service,
            UnitType::Socket => UnitKind::Socket,
            UnitType::Timer => UnitKind::Timer,
            UnitType::Mount => UnitKind::Mount,
            UnitType::Automount => UnitKind::Automount,
            UnitType::Slice => UnitKind::Slice,
            UnitType::Scope => UnitKind::Scope,
            UnitType::Target => UnitKind::Target,
            UnitType::Path => UnitKind::Path,
            UnitType::Other(s) => UnitKind::Other(s@),
        }
    }
}

impl UnitKind {
    /// The text of the unit type.
    pub open spec fn text(self) -> Seq<char> {
        match self {
            UnitKind::Service => "service"@,
            UnitKind::Socket => "socket"@,
            UnitKind::Timer => "timer"@,
            UnitKind::Mount => "mount"@,
            UnitKind::Automount => "automount"@,
            UnitKind::Slice => "slice"@,
            UnitKind::Scope => "scope"@,
            UnitKind::Target => "target"@,
            UnitKind::Path => "path"@,
            UnitKind::Other(s) => s,
        }
    }

    /// The unit type a unit name suffix names.
    pub open spec fn of_suffix(s: Seq<char>) -> UnitKind {
        if s == "service"@ {
            UnitKind::Service
        } else if s == "socket"@ {
            UnitKind::Socket
        } else if s == "timer"@ {
            UnitKind::Timer
        } else if s == "mount"@ {
            UnitKind::Mount
        } else if s == "automount"@ {
            UnitKind::Automount
        } else if s == "slice"@ {
            UnitKind::Slice
        } else if s == "scope"@ {
            UnitKind::Scope
        } else if s == "target"@ {
            UnitKind::Target
        } else if s == "path"@ {
            UnitKind::Path
        } else {
            UnitKind::Other(s)
        }
    }
}

impl UnitType {
    /// The text of the unit type.
    pub fn as_str(&self) -> (s: &str)
        ensures
            s@ == self@.text(),
    {
        match self {
            UnitType::Service => "service",
            UnitType::Socket => "socket",
            UnitType::Timer => "timer",
            UnitType::Mount => "mount",
            UnitType::Automount => "automount",
            UnitType::Slice => "slice",
            UnitType::Scope => "scope",
            UnitType::Target => "target",
            UnitType::Path => "path",
            UnitType::Other(s) => s.as_str(),
        }
    }

    /// The text of the unit type, as `to_string` gives it.
    pub fn to_string(&self) -> (s: String)
        ensures
            s@ == self@.text(),
    {
        String::from_str(self.as_str())
    }

    /// The unit type a unit name suffix names.
    pub fn from_suffix(suffix: &str) -> (t: UnitType)
        ensures
            t@ == UnitKind::of_suffix(suffix@),
    {
        if str_eq(suffix, "service") {
            UnitType::Service
        } else if str_eq(suffix, "socket") {
            UnitType::Socket
        } else if str_eq(suffix, "timer") {
            UnitType::Timer
        } else if str_eq(suffix, "mount") {
            UnitType::Mount
        } else if str_eq(suffix, "automount") {
            UnitType::Automount
        } else if str_eq(suffix, "slice") {
            UnitType::Slice
        } else if str_eq(suffix, "scope") {
            UnitType::Scope
        } else if str_eq(suffix, "target") {
            UnitType::Target
        } else if str_eq(suffix, "path") {
            UnitType::Path
        } else {
            UnitType::Other(String::from_str(suffix))
        }
    }

    /// Whether two unit types are the same.
    pub fn same_as(&self, other: &UnitType) -> (r: bool)
        ensures
            r == (self@ == other@),
    {
        match (self, other) {
            (UnitType::Service, UnitType::Service) => true,
            (UnitType::Socket, UnitType::Socket) => true,
            (UnitType::Timer, UnitType::Timer) => true,
            (UnitType::Mount, UnitType::Mount) => true,
            (UnitType::Automount, UnitType::Automount) => true,
            (UnitType::Slice, UnitType::Slice) => true,
            (UnitType::Scope, UnitType::Scope) => true,
            (UnitType::Target, UnitType::Target) => true,
            (UnitType::Path, UnitType::Path) => true,
            (UnitType::Other(a), UnitType::Other(b)) => *a == *b,
            _ => false,
        }
    }
}

/// Active state of a systemd unit (from D-Bus property ActiveState)
#[derive(Debug, Clone, PartialEq, Eq, Hash)]
pub enum ActiveState {
    Active,
    Inactive,
    Failed,
    Activating,
    Deactivating,
    Maintenance,
    Unknown(String),
}

/// An active state with its free-form text taken by its view.
pub enum ActiveKind {
    Active,
    Inactive,
    Failed,
    Activating,
    Deactivating,
    Maintenance,
    Unknown(Seq<char>),
}

impl View for ActiveState {
    type V = ActiveKind;

    open spec fn view(&self) -> ActiveKind {
        match self {
            ActiveState::Active => ActiveKind::Active,
            ActiveState::Inactive => ActiveKind::Inactive,
            ActiveState::Failed => ActiveKind::Failed,
            ActiveState::Activating => ActiveKind::Activating,
            ActiveState::Deactivating => ActiveKind::Deactivating,
            ActiveState::Maintenance => ActiveKind::Maintenance,
            ActiveState::Unknown(s) => ActiveKind::Unknown(s@),
        }
    }
}

impl ActiveKind {
    /// The text of the state.
    pub open spec fn text(self) -> Seq<char> {
        match self {
            ActiveKind::Active => "active"@,
            ActiveKind::Inactive => "inactive"@,
            ActiveKind::Failed => "failed"@,
            ActiveKind::Activating => "activating"@,
            ActiveKind::Deactivating => "deactivating"@,
            ActiveKind::Maintenance => "maintenance"@,
            ActiveKind::Unknown(s) => s,
        }
    }

    /// The state D-Bus's text names.
    pub open spec fn of_text(s: Seq<char>) -> ActiveKind {
        if s == "active"@ {
            ActiveKind::Active
        } else if s == "inactive"@ {
            ActiveKind::Inactive
        } else if s == "failed"@ {
            ActiveKind::Failed
        } else if s == "activating"@ {
            ActiveKind::Activating
        } else if s == "deactivating"@ {
            ActiveKind::Deactivating
        } else if s == "maintenance"@ {
            ActiveKind::Maintenance
        } else {
            ActiveKind::Unknown(s)
        }
    }
}

impl ActiveState {
    /// The text of the state.
    pub fn as_str(&self) -> (s: &str)
        ensures
            s@ == self@.text(),
    {
        match self {
            ActiveState::Active => "active",
            ActiveState::Inactive => "inactive",
            ActiveState::Failed => "failed",
            ActiveState::Activating => "activating",
            ActiveState::Deactivating => "deactivating",
            ActiveState::Maintenance => "maintenance",
            ActiveState::Unknown(s) => s.as_str(),
        }
    }

    /// The text of the state, as `to_string` gives it.
    pub fn to_string(&self) -> (s: String)
        ensures
            s@ == self@.text(),
    {
        String::from_str(self.as_str())
    }

    /// The state D-Bus's text names.
    pub fn from_dbus(s: &str) -> (r: ActiveState)
        ensures
            r@ == ActiveKind::of_text(s@),
    {
        if str_eq(s, "active") {
            ActiveState::Active
        } else if str_eq(s, "inactive") {
            ActiveState::Inactive
        } else if str_eq(s, "failed") {
            ActiveState::Failed
        } else if str_eq(s, "activating") {
            ActiveState::Activating
        } else if str_eq(s, "deactivating") {
            ActiveState::Deactivating
        } else if str_eq(s, "maintenance") {
            ActiveState::Maintenance
        } else {
            ActiveState::Unknown(String::from_str(s))
        }
    }

    /// Whether the unit is active.
    pub fn is_active(&self) -> (r: bool)
        ensures
            r == (self@ is Active),
    {
        matches!(self, ActiveState::Active)
    }

    /// Whether the unit has failed.
    pub fn is_failed(&self) -> (r: bool)
        ensures
            r == (self@ is Failed),
    {
        matches!(self, ActiveState::Failed)
    }
}

/// Unit file state — whether a unit is enabled/disabled/masked
#[derive(Debug, Clone, PartialEq, Eq, Hash)]
pub enum UnitFileState {
    Enabled,
    EnabledRuntime,
    Linked,
    LinkedRuntime,
    Masked,
    MaskedRuntime,
    Disabled,
    Static,
    Indirect,
    Generated,
    Transient,
    Stub,
    Unknown(String),
}

/// A unit file state with its free-form text taken by its view.
pub enum FileStateKind {
    Enabled,
    EnabledRuntime,
    Linked,
    LinkedRuntime,
    Masked,
    MaskedRuntime,
    Disabled,
    Static,
    Indirect,
    Generated,
    Transient,
    Stub,
    Unknown(Seq<char>),
}

impl View for UnitFileState {
    type V = FileStateKind;

    open spec fn view(&self) -> FileStateKind {
        match self {
            UnitFileState::Enabled => FileStateKind::Enabled,
            UnitFileState::EnabledRuntime => FileStateKind::EnabledRuntime,
            UnitFileState::Linked => FileStateKind::Linked,
            UnitFileState::LinkedRuntime => FileStateKind::LinkedRuntime,
            UnitFileState::Masked => FileStateKind::Masked,
            UnitFileState::MaskedRuntime => FileStateKind::MaskedRuntime,
            UnitFileState::Disabled => FileStateKind::Disabled,
            UnitFileState::Static => FileStateKind::Static,
            UnitFileState::Indirect => FileStateKind::Indirect,
            UnitFileState::Generated => FileStateKind::Generated,
            UnitFileState::Transient => FileStateKind::Transient,
            UnitFileState::Stub => FileStateKind::Stub,
            UnitFileState::Unknown(s) => FileStateKind::Unknown(s@),
        }
    }
}

impl FileStateKind {
    /// The text of the state.
    pub open spec fn text(self) -> Seq<char> {
        match self {
            FileStateKind::Enabled => "enabled"@,
            FileStateKind::EnabledRuntime => "enabled-runtime"@,
            FileStateKind::Linked => "linked"@,
            FileStateKind::LinkedRuntime => "linked-runtime"@,
            FileStateKind::Masked => "masked"@,
            FileStateKind::MaskedRuntime => "masked-runtime"@,
            FileStateKind::Disabled => "disabled"@,
            FileStateKind::Static => "static"@,
            FileStateKind::Indirect => "indirect"@,
            FileStateKind::Generated => "generated"@,
            FileStateKind::Transient => "transient"@,
            FileStateKind::Stub => "stub"@,
            FileStateKind::Unknown(s) => s,
        }
    }

    /// The state D-Bus's text names.
    pub open spec fn of_text(s: Seq<char>) -> FileStateKind {
        if s == "enabled"@ {
            FileStateKind::Enabled
        } else if s == "enabled-runtime"@ {
            FileStateKind::EnabledRuntime
        } else if s == "linked"@ {
            FileStateKind::Linked
        } else if s == "linked-runtime"@ {
            FileStateKind::LinkedRuntime
        } else if s == "masked"@ {
            FileStateKind::Masked
        } else if s == "masked-runtime"@ {
            FileStateKind::MaskedRuntime
        } else if s == "disabled"@ {
            FileStateKind::Disabled
        } else if s == "static"@ {
            FileStateKind::Static
        } else if s == "indirect"@ {
            FileStateKind::Indirect
        } else if s == "generated"@ {
            FileStateKind::Generated
        } else if s == "transient"@ {
            FileStateKind::Transient
        } else if s == "stub"@ {
            FileStateKind::Stub
        } else {
            FileStateKind::Unknown(s)
        }
    }

    /// The unit is enabled (directly, at runtime, or by a link).
    pub open spec fn enabled(self) -> bool {
        ||| self is Enabled
        ||| self is EnabledRuntime
        ||| self is Linked
        ||| self is LinkedRuntime
    }

    /// The unit is masked.
    pub open spec fn masked(self) -> bool {
        self is Masked || self is MaskedRuntime
    }
}

impl UnitFileState {
    /// The text of the state.
    pub fn as_str(&self) -> (s: &str)
        ensures
            s@ == self@.text(),
    {
        match self {
            UnitFileState::Enabled => "enabled",
            UnitFileState::EnabledRuntime => "enabled-runtime",
            UnitFileState::Linked => "linked",
            UnitFileState::LinkedRuntime => "linked-runtime",
            UnitFileState::Masked => "masked",
            UnitFileState::MaskedRuntime => "masked-runtime",
            UnitFileState::Disabled => "disabled",
            UnitFileState::Static => "static",
            UnitFileState::Indirect => "indirect",
            UnitFileState::Generated => "generated",
            UnitFileState::Transient => "transient",
            UnitFileState::Stub => "stub",
            UnitFileState::Unknown(s) => s.as_str(),
        }
    }

    /// The text of the state, as `to_string` gives it.
    pub fn to_string(&self) -> (s: String)
        ensures
            s@ == self@.text(),
    {
        String::from_str(self.as_str())
    }

    /// The state D-Bus's text names.
    pub fn from_dbus(s: &str) -> (r: UnitFileState)
        ensures
            r@ == FileStateKind::of_text(s@),
    {
        if str_eq(s, "enabled") {
            UnitFileState::Enabled
        } else if str_eq(s, "enabled-runtime") {
            UnitFileState::EnabledRuntime
        } else if str_eq(s, "linked") {
            UnitFileState::Linked
        } else if str_eq(s, "linked-runtime") {
            UnitFileState::LinkedRuntime
        } else if str_eq(s, "masked") {
            UnitFileState::Masked
        } else if str_eq(s, "masked-runtime") {
            UnitFileState::MaskedRuntime
        } else if str_eq(s, "disabled") {
            UnitFileState::Disabled
        } else if str_eq(s, "static") {
            UnitFileState::Static
        } else if str_eq(s, "indirect") {
            UnitFileState::Indirect
        } else if str_eq(s, "generated") {
            UnitFileState::Generated
        } else if str_eq(s, "transient") {
            UnitFileState::Transient
        } else if str_eq(s, "stub") {
            UnitFileState::Stub
        } else {
            UnitFileState::Unknown(String::from_str(s))
        }
    }

    /// Whether the unit is enabled (directly, at runtime, or by a link).
    pub fn is_enabled(&self) -> (r: bool)
        ensures
            r == self@.enabled(),
    {
        matches!(
            self,
            UnitFileState::Enabled | UnitFileState::EnabledRuntime | UnitFileState::Linked
                | UnitFileState::LinkedRuntime
        )
    }

    /// Whether the unit is masked.
    pub fn is_masked(&self) -> (r: bool)
        ensures
            r == self@.masked(),
    {
        matches!(self, UnitFileState::Masked | UnitFileState::MaskedRuntime)
    }
}

/// A single systemd unit observation from D-Bus.
#[derive(Debug, Clone, PartialEq)]
pub struct UnitRecord {
    pub name: String,
    pub unit_type: UnitType,
    pub active_state: ActiveState,
    pub sub_state: String,
    pub unit_file_state: Option<UnitFileState>,
    pub description: String,
    pub load_state: String,
}

/// The base name and unit type of a full unit name: split at the last `.`;
/// a name without one is of an `unknown` type.
pub open spec fn unit_name_parts(s: Seq<char>) -> (Seq<char>, UnitKind) {
    match last_index_of(s, '.') {
        Some(p) => (s.take(p), UnitKind::of_suffix(s.skip(p + 1))),
        None => (s, UnitKind::Other("unknown"@)),
    }
}

impl UnitRecord {
    /// Parse a unit name like "sshd.service" into (name, type).
    pub fn parse_unit_name(unit_name: &str) -> (r: (String, UnitType))
        ensures
            (r.0@, r.1@) == unit_name_parts(unit_name@),
    {
        let chars = chars_of(unit_name);
        let mut k: usize = chars.len();
        assert(chars@.take(k as int) =~= chars@);
        while k > 0 && chars[k - 1] != '.'
            invariant
                k <= chars@.len(),
                chars@ == unit_name@,
                last_index_of(chars@, '.') == last_index_of(chars@.take(k as int), '.'),
            decreases k,
        {
            let ghost t = chars@.take(k as int);
            assert(t.drop_last() =~= chars@.take(k - 1));
            k = k - 1;
        }
        if k == 0 {
            assert(last_index_of(chars@.take(0), '.') is None);
            return (String::from_str(unit_name), UnitType::Other(String::from_str("unknown")));
        }
        let pos = k - 1;
        let ghost t = chars@.take(k as int);
        assert(last_index_of(t, '.') == Some(pos as int));
        let base = string_of_range(&chars, 0, pos);
        let suffix = string_of_range(&chars, pos + 1, chars.len());
        assert(chars@.subrange(0, pos as int) =~= chars@.take(pos as int));
        assert(chars@.subrange(pos + 1, chars@.len() as int) =~= chars@.skip(pos + 1));
        (base, UnitType::from_suffix(suffix.as_str()))
    }
}

/// The unit is enabled according to its unit file state.
pub open spec fn unit_enabled(u: UnitRecord) -> bool {
    match u.unit_file_state {
        Some(s) => s@.enabled(),
        None => false,
    }
}

/// The unit is masked according to its unit file state.
pub open spec fn unit_masked(u: UnitRecord) -> bool {
    match u.unit_file_state {
        Some(s) => s@.masked(),
        None => false,
    }
}

/// A full snapshot of systemd units at a point in time.
#[derive(Debug, Clone)]
pub struct SystemSnapshot {
    pub units: Vec<UnitRecord>,
    pub snapshot_time: String,
}

impl SystemSnapshot {
    /// An empty snapshot taken now.
    pub fn empty() -> (s: Self)
        ensures
            s.units@.len() == 0,
            s.snapshot_time@.len() > 0,
    {
        SystemSnapshot { units: Vec::new(), snapshot_time: now_rfc3339() }
    }

    /// The number of units.
    pub fn unit_count(&self) -> (n: usize)
        ensures
            n == self.units@.len(),
    {
        self.units.len()
    }

    /// The number of active units.
    pub fn active_count(&self) -> (n: usize)
        ensures
            n == self.units@.filter(|u: UnitRecord| u.active_state@ is Active).len(),
    {
        let ghost pred = |u: UnitRecord| u.active_state@ is Active;
        let mut n: usize = 0;
        let mut i: usize = 0;
        while i < self.units.len()
            invariant
                i <= self.units@.len(),
                pred == (|u: UnitRecord| u.active_state@ is Active),
                n == self.units@.take(i as int).filter(pred).len(),
                n <= i,
            decreases self.units.len() - i,
        {
            proof {
                lemma_filter_step(self.units@, pred, i as int);
            }
            if self.units[i].active_state.is_active() {
                n = n + 1;
            }
            i = i + 1;
        }
        assert(self.units@.take(self.units@.len() as int) =~= self.units@);
        n
    }

    /// The number of failed units.
    pub fn failed_count(&self) -> (n: usize)
        ensures
            n == self.units@.filter(|u: UnitRecord| u.active_state@ is Failed).len(),
    {
        let ghost pred = |u: UnitRecord| u.active_state@ is Failed;
        let mut n: usize = 0;
        let mut i: usize = 0;
        while i < self.units.len()
            invariant
                i <= self.units@.len(),
                pred == (|u: UnitRecord| u.active_state@ is Failed),
                n == self.units@.take(i as int).filter(pred).len(),
                n <= i,
            decreases self.units.len() - i,
        {
            proof {
                lemma_filter_step(self.units@, pred, i as int);
            }
            if self.units[i].active_state.is_failed() {
                n = n + 1;
            }
            i = i + 1;
        }
        assert(self.units@.take(self.units@.len() as int) =~= self.units@);
        n
    }

    /// The number of enabled units.
    pub fn enabled_count(&self) -> (n: usize)
        ensures
            n == self.units@.filter(|u: UnitRecord| unit_enabled(u)).len(),
    {
        let ghost pred = |u: UnitRecord| unit_enabled(u);
        let mut n: usize = 0;
        let mut i: usize = 0;
        while i < self.units.len()
            invariant
                i <= self.units@.len(),
                pred == (|u: UnitRecord| unit_enabled(u)),
                n == self.units@.take(i as int).filter(pred).len(),
                n <= i,
            decreases self.units.len() - i,
        {
            proof {
                lemma_filter_step(self.units@, pred, i as int);
            }
            let e = match &self.units[i].unit_file_state {
                Some(s) => s.is_enabled(),
                None => false,
            };
            if e {
                n = n + 1;
            }
            i = i + 1;
        }
        assert(self.units@.take(self.units@.len() as int) =~= self.units@);
        n
    }

    /// The number of masked units.
    pub fn masked_count(&self) -> (n: usize)
        ensures
            n == self.units@.filter(|u: UnitRecord| unit_masked(u)).len(),
    {
        let ghost pred = |u: UnitRecord| unit_masked(u);
        let mut n: usize = 0;
        let mut i: usize = 0;
        while i < self.units.len()
            invariant
                i <= self.units@.len(),
                pred == (|u: UnitRecord| unit_masked(u)),
                n == self.units@.take(i as int).filter(pred).len(),
                n <= i,
            decreases self.units.len() - i,
        {
            proof {
                lemma_filter_step(self.units@, pred, i as int);
            }
            let m = match &self.units[i].unit_file_state {
                Some(s) => s.is_masked(),
                None => false,
            };
            if m {
                n = n + 1;
            }
            i = i + 1;
        }
        assert(self.units@.take(self.units@.len() as int) =~= self.units@);
        n
    }

    /// The service units, in order.
    pub fn services(&self) -> (r: Vec<&UnitRecord>)
        ensures
            r@.map_values(|u: &UnitRecord| *u) == self.units@.filter(
                |u: UnitRecord| u.unit_type@ == UnitKind::Service,
            ),
    {
        let t = UnitType::Service;
        let r = self.units_by_type(&t);
        assert((|u: UnitRecord| u.unit_type@ == t@) =~= (|u: UnitRecord| u.unit_type@
            == UnitKind::Service));
        r
    }

    /// The failed units, in order.
    pub fn failed_units(&self) -> (r: Vec<&UnitRecord>)
        ensures
            r@.map_values(|u: &UnitRecord| *u) == self.units@.filter(
                |u: UnitRecord| u.active_state@ is Failed,
            ),
    {
        let ghost pred = |u: UnitRecord| u.active_state@ is Failed;
        let mut r: Vec<&UnitRecord> = Vec::new();
        let mut i: usize = 0;
        while i < self.units.len()
            invariant
                i <= self.units@.len(),
                pred == (|u: UnitRecord| u.active_state@ is Failed),
                r@.map_values(|u: &UnitRecord| *u) == self.units@.take(i as int).filter(pred),
            decreases self.units.len() - i,
        {
            proof {
                lemma_filter_step(self.units@, pred, i as int);
            }
            if self.units[i].active_state.is_failed() {
                r.push(&self.units[i]);
            }
            assert(r@.map_values(|u: &UnitRecord| *u) =~= self.units@.take(i + 1).filter(pred));
            i = i + 1;
        }
        assert(self.units@.take(self.units@.len() as int) =~= self.units@);
        r
    }

    /// The units of the given type, in order.
    pub fn units_by_type(&self, unit_type: &UnitType) -> (r: Vec<&UnitRecord>)
        ensures
            r@.map_values(|u: &UnitRecord| *u) == self.units@.filter(
                |u: UnitRecord| u.unit_type@ == unit_type@,
            ),
    {
        let ghost pred = |u: UnitRecord| u.unit_type@ == unit_type@;
        let mut r: Vec<&UnitRecord> = Vec::new();
        let mut i: usize = 0;
        while i < self.units.len()
            invariant
                i <= self.units@.len(),
                pred == (|u: UnitRecord| u.unit_type@ == unit_type@),
                r@.map_values(|u: &UnitRecord| *u) == self.units@.take(i as int).filter(pred),
            decreases self.units.len() - i,
        {
            proof {
                lemma_filter_step(self.units@, pred, i as int);
            }
            if self.units[i].unit_type.same_as(unit_type) {
                r.push(&self.units[i]);
            }
            assert(r@.map_values(|u: &UnitRecord| *u) =~= self.units@.take(i + 1).filter(pred));
            i = i + 1;
        }
        assert(self.units@.take(self.units@.len() as int) =~= self.units@);
        r
    }

    /// The first unit with the given name.
    pub fn find_unit(&self, name: &str) -> (r: Option<&UnitRecord>)
        ensures
            match r {
                Some(u) => first_match(self.units@, |q: UnitRecord| q.name@ == name@) == Some(*u),
                None => first_match(self.units@, |q: UnitRecord| q.name@ == name@) is None,
            },
    {
        let ghost pred = |q: UnitRecord| q.name@ == name@;
        let mut i: usize = 0;
        assert(self.units@.take(0) =~= Seq::<UnitRecord>::empty());
        while i < self.units.len()
            invariant
                i <= self.units@.len(),
                pred == (|q: UnitRecord| q.name@ == name@),
                first_match(self.units@.take(i as int), pred) is None,
            decreases self.units.len() - i,
        {
            if str_eq(self.units[i].name.as_str(), name) {
                proof {
                    lemma_first_match_at(self.units@, pred, i as int);
                }
                return Some(&self.units[i]);
            }
            proof {
                lemma_first_match_none(self.units@, pred, i as int);
            }
            i = i + 1;
        }
        assert(self.units@.take(self.units@.len() as int) =~= self.units@);
        None
    }
}

} // verus!
