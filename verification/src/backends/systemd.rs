//! The systemd backend: merging what systemd's manager reports into unit
//! records.
//!
//! Talking to systemd over D-Bus is the application's part; it hands the
//! library the listed units, the installed unit files, and, when the unit
//! file listing was unavailable, each listed unit's own file state.
use vstd::prelude::*;

use crate::backends::dnf::pair_views;
use crate::discovery::services::{
    ActiveKind, ActiveState, FileStateKind, SystemSnapshot, UnitFileState, UnitRecord,
    unit_name_parts,
};
use crate::model::root_policy::{opt_view, string_views};
use crate::stamp::now_rfc3339;
use crate::text::{
    chars_of, chars_range, contains_str, has_substring, last_index_of, rfind_char, str_eq,
    string_of,
};

verus! {

/// One unit as systemd's `ListUnits` reports it: the fields the library
/// reads.
#[derive(Debug, Clone)]
pub struct ListedUnit {
    pub name: String,
    pub description: String,
    pub load_state: String,
    pub active_state: String,
    pub sub_state: String,
}

/// The file name of a unit file path: what follows its last `/`.
pub open spec fn path_file_name(path: Seq<char>) -> Seq<char> {
    match last_index_of(path, '/') {
        Some(i) => path.skip(i + 1),
        None => path,
    }
}

/// The (file name, state) of each installed unit file that is a unit of its
/// own, in order: templates (`@.` in the name) and alias symlinks are not.
pub open spec fn unit_file_entries(files: Seq<(Seq<char>, Seq<char>)>) -> Seq<
    (Seq<char>, Seq<char>),
>
    decreases files.len(),
{
    if files.len() == 0 {
        Seq::<(Seq<char>, Seq<char>)>::empty()
    } else {
        let rest = unit_file_entries(files.drop_last());
        let name = path_file_name(files.last().0);
        let state = files.last().1;
        if name.len() == 0 || has_substring(name, "@."@) || state == "alias"@ {
            rest
        } else {
            rest.push((name, state))
        }
    }
}

/// The state recorded for a unit file name: the last one, as a later insert
/// into a map replaces an earlier one.
pub open spec fn last_state(entries: Seq<(Seq<char>, Seq<char>)>, name: Seq<char>) -> Option<
    Seq<char>,
>
    decreases entries.len(),
{
    if entries.len() == 0 {
        None
    } else if entries.last().0 == name {
        Some(entries.last().1)
    } else {
        last_state(entries.drop_last(), name)
    }
}

/// The distinct file names of the entries, in order of first appearance.
pub open spec fn distinct_names(entries: Seq<(Seq<char>, Seq<char>)>) -> Seq<Seq<char>>
    decreases entries.len(),
{
    if entries.len() == 0 {
        Seq::<Seq<char>>::empty()
    } else {
        let d = distinct_names(entries.drop_last());
        if d.contains(entries.last().0) {
            d
        } else {
            d.push(entries.last().0)
        }
    }
}

/// Every distinct name has a recorded state.
pub proof fn lemma_distinct_names_have_state(entries: Seq<(Seq<char>, Seq<char>)>)
    ensures
        forall|j: int|
            0 <= j < distinct_names(entries).len() ==> (#[trigger] last_state(
                entries,
                distinct_names(entries)[j],
            )) is Some,
    decreases entries.len(),
{
    if entries.len() > 0 {
        let t = entries.drop_last();
        lemma_distinct_names_have_state(t);
        let d = distinct_names(t);
        assert forall|j: int| 0 <= j < distinct_names(entries).len() implies (#[trigger] last_state(
            entries,
            distinct_names(entries)[j],
        )) is Some by {
            let n = distinct_names(entries)[j];
            if j < d.len() {
                assert(n == d[j]);
                assert(last_state(t, d[j]) is Some);
            }
        }
    }
}

/// The names of the listed units.
pub open spec fn listed_names(listed: Seq<ListedUnit>) -> Seq<Seq<char>> {
    listed.map_values(|l: ListedUnit| l.name@)
}

/// The unit files that are installed but not loaded: every distinct unit
/// file name that no listed unit has, in order of first appearance.
pub open spec fn not_loaded_names(
    entries: Seq<(Seq<char>, Seq<char>)>,
    listed: Seq<ListedUnit>,
) -> Seq<Seq<char>> {
    distinct_names(entries).filter(|n: Seq<char>| !listed_names(listed).contains(n))
}

/// The view of an optional unit file state.
pub open spec fn file_state_view(s: Option<UnitFileState>) -> Option<FileStateKind> {
    match s {
        Some(t) => Some(t@),
        None => None,
    }
}

/// The file state of a listed unit: the one the unit file listing records
/// for its name; only when that listing gave nothing at all, the unit's own
/// query result, if there is one.
pub open spec fn listed_file_state(
    name: Seq<char>,
    entries: Seq<(Seq<char>, Seq<char>)>,
    own: Option<Seq<char>>,
) -> Option<FileStateKind> {
    match last_state(entries, name) {
        Some(t) => Some(FileStateKind::of_text(t)),
        None => if entries.len() == 0 {
            match own {
                Some(t) => Some(FileStateKind::of_text(t)),
                None => None,
            }
        } else {
            None
        },
    }
}

/// `u` is the record of a listed unit whose file state is `state`.
pub open spec fn listed_unit_record(
    u: UnitRecord,
    l: ListedUnit,
    state: Option<FileStateKind>,
) -> bool {
    &&& (u.name@, u.unit_type@) == unit_name_parts(l.name@)
    &&& u.active_state@ == ActiveKind::of_text(l.active_state@)
    &&& u.sub_state@ == l.sub_state@
    &&& file_state_view(u.unit_file_state) == state
    &&& u.description@ == l.description@
    &&& u.load_state@ == l.load_state@
}

/// `u` is the record of a unit file that is installed but not loaded:
/// inactive, `dead`, `not-loaded`, without a description.
pub open spec fn not_loaded_record(u: UnitRecord, name: Seq<char>, state: Seq<char>) -> bool {
    &&& (u.name@, u.unit_type@) == unit_name_parts(name)
    &&& u.active_state@ == ActiveKind::Inactive
    &&& u.sub_state@ == "dead"@
    &&& file_state_view(u.unit_file_state) == Some(FileStateKind::of_text(state))
    &&& u.description@.len() == 0
    &&& u.load_state@ == "not-loaded"@
}

/// The file name of a unit file path.
fn path_file_name_exec(path: &String) -> (r: Vec<char>)
    ensures
        r@ == path_file_name(path@),
{
    let v = chars_of(path.as_str());
    match rfind_char(&v, '/') {
        Some(i) => {
            assert(i < v@.len());
            assert(v@.len() == v.len());
            let r = chars_range(&v, i + 1, v.len());
            assert(r@ =~= v@.skip(i + 1));
            r
        },
        None => v,
    }
}

/// The (file name, state) entries of the installed unit files.
fn unit_file_entries_exec(files: &Vec<(String, String)>) -> (r: Vec<(String, String)>)
    ensures
        pair_views(r@) == unit_file_entries(pair_views(files@)),
{
    let ghost fv = pair_views(files@);
    let mut r: Vec<(String, String)> = Vec::new();
    let mut i: usize = 0;
    while i < files.len()
        invariant
            i <= files.len(),
            fv == pair_views(files@),
            pair_views(r@) == unit_file_entries(fv.take(i as int)),
        decreases files.len() - i,
    {
        let ghost t = fv.take(i + 1);
        assert(t.drop_last() =~= fv.take(i as int));
        assert(t.last() == (files@[i as int].0@, files@[i as int].1@));
        let name = path_file_name_exec(&files[i].0);
        if !(name.len() == 0 || contains_str(&name, "@.") || str_eq(files[i].1.as_str(), "alias")) {
            let ghost before = pair_views(r@);
            let n = string_of(&name);
            let s = files[i].1.clone();
            let ghost nv = n@;
            let ghost sv = s@;
            r.push((n, s));
            assert(pair_views(r@) =~= before.push((nv, sv)));
        }
        i = i + 1;
    }
    assert(fv.take(files.len() as int) =~= fv);
    r
}

/// The state recorded for a unit file name.
fn last_state_exec(entries: &Vec<(String, String)>, name: &str) -> (r: Option<String>)
    ensures
        opt_view(r) == last_state(pair_views(entries@), name@),
{
    let ghost ev = pair_views(entries@);
    let mut k: usize = entries.len();
    assert(ev.take(k as int) =~= ev);
    while k > 0
        invariant
            k <= entries.len(),
            ev == pair_views(entries@),
            last_state(ev, name@) == last_state(ev.take(k as int), name@),
        decreases k,
    {
        let ghost t = ev.take(k as int);
        assert(t.drop_last() =~= ev.take(k - 1));
        assert(t.last() == (entries@[k - 1].0@, entries@[k - 1].1@));
        if str_eq(entries[k - 1].0.as_str(), name) {
            return Some(entries[k - 1].1.clone());
        }
        k = k - 1;
    }
    None
}

/// Whether `names` holds `name`.
fn names_contain(names: &Vec<String>, name: &str) -> (r: bool)
    ensures
        r == string_views(names@).contains(name@),
{
    let mut i: usize = 0;
    while i < names.len()
        invariant
            i <= names.len(),
            forall|k: int| 0 <= k < i ==> names@[k]@ != name@,
        decreases names.len() - i,
    {
        if str_eq(names[i].as_str(), name) {
            assert(string_views(names@)[i as int] == name@);
            return true;
        }
        i = i + 1;
    }
    assert forall|k: int| 0 <= k < string_views(names@).len() implies string_views(names@)[k]
        != name@ by {
        assert(names@[k]@ != name@);
    }
    false
}

/// The distinct names of the entries, in order of first appearance.
fn distinct_names_exec(entries: &Vec<(String, String)>) -> (r: Vec<String>)
    ensures
        string_views(r@) == distinct_names(pair_views(entries@)),
{
    let ghost ev = pair_views(entries@);
    let mut r: Vec<String> = Vec::new();
    let mut i: usize = 0;
    while i < entries.len()
        invariant
            i <= entries.len(),
            ev == pair_views(entries@),
            string_views(r@) == distinct_names(ev.take(i as int)),
        decreases entries.len() - i,
    {
        let ghost t = ev.take(i + 1);
        assert(t.drop_last() =~= ev.take(i as int));
        assert(t.last() == (entries@[i as int].0@, entries@[i as int].1@));
        if !names_contain(&r, entries[i].0.as_str()) {
            let ghost before = string_views(r@);
            let n = entries[i].0.clone();
            r.push(n);
            assert(string_views(r@) =~= before.push(entries@[i as int].0@));
        }
        i = i + 1;
    }
    assert(ev.take(entries.len() as int) =~= ev);
    r
}

/// The record of one listed unit, with the given file state text.
fn listed_record(l: ListedUnit, state: Option<String>) -> (u: UnitRecord)
    ensures
        listed_unit_record(
            u,
            l,
            match state {
                Some(t) => Some(FileStateKind::of_text(t@)),
                None => None,
            },
        ),
{
    let (base_name, unit_type) = UnitRecord::parse_unit_name(l.name.as_str());
    let active_state = ActiveState::from_dbus(l.active_state.as_str());
    let unit_file_state = match state {
        Some(t) => Some(UnitFileState::from_dbus(t.as_str())),
        None => None,
    };
    UnitRecord {
        name: base_name,
        unit_type,
        active_state,
        sub_state: l.sub_state,
        unit_file_state,
        description: l.description,
        load_state: l.load_state,
    }
}

/// Whether each listed unit's own file state must be queried: only when the
/// unit file listing gave no unit file of its own.
pub fn needs_own_states(unit_files: &Vec<(String, String)>) -> (r: bool)
    ensures
        r == (unit_file_entries(pair_views(unit_files@)).len() == 0),
{
    unit_file_entries_exec(unit_files).len() == 0
}

/// Merge what systemd reports into unit records: first every listed unit,
/// in order, with its unit file state; then every installed unit file that
/// no listed unit has, in order of first appearance, as inactive and not
/// loaded. `own_states[i]` is the file state queried for the `i`-th listed
/// unit, consulted only when the unit file listing gave no unit at all.
pub fn merge_units(
    listed: Vec<ListedUnit>,
    unit_files: Vec<(String, String)>,
    own_states: Vec<Option<String>>,
) -> (r: Vec<UnitRecord>)
    ensures
        ({
            let entries = unit_file_entries(pair_views(unit_files@));
            let extra = not_loaded_names(entries, listed@);
            &&& r@.len() == listed@.len() + extra.len()
            &&& forall|i: int|
                0 <= i < listed@.len() ==> listed_unit_record(
                    #[trigger] r@[i],
                    listed@[i],
                    listed_file_state(
                        listed@[i].name@,
                        entries,
                        if i < own_states@.len() {
                            opt_view(own_states@[i])
                        } else {
                            None
                        },
                    ),
                )
            &&& forall|j: int|
                0 <= j < extra.len() ==> not_loaded_record(
                    #[trigger] r@[listed@.len() + j],
                    extra[j],
                    last_state(entries, extra[j])->0,
                )
        }),
{
    let entries = unit_file_entries_exec(&unit_files);
    let ghost ev = pair_views(entries@);
    let ghost all = listed@;
    let mut names: Vec<String> = Vec::new();
    let mut r: Vec<UnitRecord> = Vec::new();
    for l in it: listed
        invariant
            all == it.seq(),
            ev == pair_views(entries@),
            ev == unit_file_entries(pair_views(unit_files@)),
            r@.len() == it.index(),
            string_views(names@) == listed_names(all.take(it.index() as int)),
            forall|i: int|
                0 <= i < r@.len() ==> listed_unit_record(
                    #[trigger] r@[i],
                    all[i],
                    listed_file_state(
                        all[i].name@,
                        ev,
                        if i < own_states@.len() {
                            opt_view(own_states@[i])
                        } else {
                            None
                        },
                    ),
                ),
    {
        let ghost i = it.index() as int;
        assert(l == all[i]);
        let ghost own = if i < own_states@.len() {
            opt_view(own_states@[i])
        } else {
            None
        };
        let state = match last_state_exec(&entries, l.name.as_str()) {
            Some(t) => Some(t),
            None => {
                if entries.len() == 0 && r.len() < own_states.len() {
                    match &own_states[r.len()] {
                        Some(t) => Some(t.clone()),
                        None => None,
                    }
                } else {
                    None
                }
            },
        };
        let ghost before = string_views(names@);
        let n = l.name.clone();
        names.push(n);
        assert(string_views(names@) =~= before.push(all[i].name@));
        assert(all.take(i + 1) =~= all.take(i).push(all[i]));
        assert(listed_names(all.take(i + 1)) =~= listed_names(all.take(i)).push(all[i].name@));
        let u = listed_record(l, state);
        r.push(u);
    }
    assert(all.take(all.len() as int) =~= all);
    let distinct = distinct_names_exec(&entries);
    proof {
        lemma_distinct_names_have_state(ev);
    }
    let ghost dv = string_views(distinct@);
    let ghost pred = |n: Seq<char>| !listed_names(all).contains(n);
    let mut k: usize = 0;
    let ghost base = r@.len();
    while k < distinct.len()
        invariant
            k <= distinct.len(),
            base == all.len(),
            dv == string_views(distinct@),
            dv == distinct_names(ev),
            ev == pair_views(entries@),
            ev == unit_file_entries(pair_views(unit_files@)),
            string_views(names@) == listed_names(all),
            pred == (|n: Seq<char>| !listed_names(all).contains(n)),
            r@.len() == base + dv.take(k as int).filter(pred).len(),
            forall|i: int|
                0 <= i < base ==> listed_unit_record(
                    #[trigger] r@[i],
                    all[i],
                    listed_file_state(
                        all[i].name@,
                        ev,
                        if i < own_states@.len() {
                            opt_view(own_states@[i])
                        } else {
                            None
                        },
                    ),
                ),
            forall|j: int|
                0 <= j < dv.take(k as int).filter(pred).len() ==> not_loaded_record(
                    #[trigger] r@[base + j],
                    dv.take(k as int).filter(pred)[j],
                    last_state(ev, dv.take(k as int).filter(pred)[j])->0,
                ),
            forall|j: int| 0 <= j < dv.len() ==> (#[trigger] last_state(ev, dv[j])) is Some,
        decreases distinct.len() - k,
    {
        proof {
            crate::seqs::lemma_filter_step(dv, pred, k as int);
        }
        let name = &distinct[k];
        assert(dv[k as int] == name@);
        if !names_contain(&names, name.as_str()) {
            let state = last_state_exec(&entries, name.as_str());
            assert(last_state(ev, dv[k as int]) is Some);
            match state {
                Some(t) => {
                    let (base_name, unit_type) = UnitRecord::parse_unit_name(name.as_str());
                    let u = UnitRecord {
                        name: base_name,
                        unit_type,
                        active_state: ActiveState::Inactive,
                        sub_state: String::from_str("dead"),
                        unit_file_state: Some(UnitFileState::from_dbus(t.as_str())),
                        description: String::new(),
                        load_state: String::from_str("not-loaded"),
                    };
                    r.push(u);
                },
                None => {},
            }
        }
        k = k + 1;
    }
    assert(dv.take(distinct.len() as int) =~= dv);
    r
}

/// systemd backend over D-Bus; the library holds what is computed from the
/// manager's replies.
#[derive(Debug, Clone, Copy)]
pub struct SystemdDbusBackend;

impl SystemdDbusBackend {
    /// A new backend.
    pub fn new() -> (b: Self) {
        SystemdDbusBackend
    }

    /// A snapshot, taken now, of the units systemd reports (see
    /// `merge_units`).
    pub fn discover_units(
        &self,
        listed: Vec<ListedUnit>,
        unit_files: Vec<(String, String)>,
        own_states: Vec<Option<String>>,
    ) -> (s: SystemSnapshot)
        ensures
            ({
                let entries = unit_file_entries(pair_views(unit_files@));
                let extra = not_loaded_names(entries, listed@);
                &&& s.units@.len() == listed@.len() + extra.len()
                &&& forall|i: int|
                    0 <= i < listed@.len() ==> listed_unit_record(
                        #[trigger] s.units@[i],
                        listed@[i],
                        listed_file_state(
                            listed@[i].name@,
                            entries,
                            if i < own_states@.len() {
                                opt_view(own_states@[i])
                            } else {
                                None
                            },
                        ),
                    )
                &&& forall|j: int|
                    0 <= j < extra.len() ==> not_loaded_record(
                        #[trigger] s.units@[listed@.len() + j],
                        extra[j],
                        last_state(entries, extra[j])->0,
                    )
            }),
            s.snapshot_time@.len() > 0,
    {
        SystemSnapshot { units: merge_units(listed, unit_files, own_states), snapshot_time: now_rfc3339() }
    }
}

} // verus!
