//! The "My System" overview: intentional resources, grouped by domain when
//! domains exist, otherwise grouped by resource type.
use vstd::prelude::*;

use crate::cli::show::copy_domain;
use crate::model::analysis::copy_resource;
use crate::model::domain::Domain;
use crate::model::observation::Observation;
use crate::model::resource::{Resource, ResourceType};
use crate::model::root::RootSource;
use crate::model::store::{DomainMember, Store};
use crate::order::{
    lemma_stable_sort_contains, lemma_stable_sort_sorted, lemma_text_lt_transitive,
    lemma_text_trichotomy, sorted_by, stable_sort, stable_sort_vec, text_le, text_less_or_equal,
    text_lt, total_preorder,
};
use crate::seqs::{
    first_match, lemma_filter_step, lemma_first_match_at, lemma_first_match_none,
    lemma_first_match_some,
};
use crate::text::{str_eq, to_lowercase, unicode_lowercase};

verus! {

/// Maximum ungrouped roots listed in the overview when domains exist.
pub const UNGROUPED_LIMIT: usize = 12;

/// A root as shown in the overview.
#[derive(Debug, Clone, PartialEq, Eq)]
pub struct RootEntry {
    pub resource: Resource,
    pub source: RootSource,
    pub missing: bool,
}

/// The label of a resource in the overview: "Name (native-id)" when it has
/// a display name that differs from its native id, else the native id.
pub open spec fn entry_label(r: Resource) -> Seq<char> {
    match r.display_name {
        Some(n) => if n@ != r.native_id@ {
            n@ + " ("@ + r.native_id@ + ")"@
        } else {
            r.native_id@
        },
        None => r.native_id@,
    }
}

/// The tag of a root: its source, and whether it is missing.
pub open spec fn entry_tag(source: RootSource, missing: bool) -> Seq<char> {
    if missing {
        "["@ + source.text() + ", missing]"@
    } else {
        "["@ + source.text() + "]"@
    }
}

impl RootEntry {
    /// Display label: "Visual Studio Code (code)" when they differ.
    pub fn label(&self) -> (s: String)
        ensures
            s@ == entry_label(self.resource),
    {
        match &self.resource.display_name {
            Some(name) => {
                if !str_eq(name.as_str(), self.resource.native_id.as_str()) {
                    let mut s = name.clone();
                    s.append(" (");
                    s.append(self.resource.native_id.as_str());
                    s.append(")");
                    s
                } else {
                    self.resource.native_id.clone()
                }
            },
            None => self.resource.native_id.clone(),
        }
    }

    /// Source tag, e.g. `[user]` or `[detected, missing]`.
    pub fn tag(&self) -> (s: String)
        ensures
            s@ == entry_tag(self.source, self.missing),
    {
        let mut s = String::from_str("[");
        s.append(self.source.as_str());
        if self.missing {
            s.append(", missing]");
        } else {
            s.append("]");
        }
        s
    }
}

/// A copy of an entry.
fn copy_entry(e: &RootEntry) -> (c: RootEntry)
    ensures
        c == *e,
{
    RootEntry { resource: copy_resource(&e.resource), source: e.source, missing: e.missing }
}

/// One section of the overview.
#[derive(Debug, Clone, PartialEq, Eq)]
pub struct Section {
    pub title: String,
    pub entries: Vec<RootEntry>,
    /// Whether the section is truncated in the default view (the full list
    /// remains available via `chapeau roots`).
    pub collapsed: bool,
}

/// The data behind the overview.
#[derive(Debug, Clone)]
pub struct Overview {
    pub sections: Vec<Section>,
    pub has_domains: bool,
    pub root_count: usize,
    pub missing_count: usize,
    pub resource_count: usize,
    pub relationship_count: usize,
}

/// The order of entries in a section: by lower-cased label.
pub open spec fn entry_order() -> spec_fn(RootEntry, RootEntry) -> bool {
    |a: RootEntry, b: RootEntry|
        text_le(unicode_lowercase(entry_label(a.resource)), unicode_lowercase(entry_label(b.resource)))
}

/// The order of entries is a total preorder.
pub proof fn lemma_entry_order_total_preorder()
    ensures
        total_preorder(entry_order()),
{
    assert forall|a: RootEntry, b: RootEntry|
        #[trigger] (entry_order())(a, b) || (entry_order())(b, a) by {
        lemma_text_trichotomy(
            unicode_lowercase(entry_label(a.resource)),
            unicode_lowercase(entry_label(b.resource)),
        );
    }
    assert forall|a: RootEntry, b: RootEntry, c: RootEntry|
        #[trigger] (entry_order())(a, b) && #[trigger] (entry_order())(b, c) implies (
        entry_order())(a, c) by {
        let ka = unicode_lowercase(entry_label(a.resource));
        let kb = unicode_lowercase(entry_label(b.resource));
        let kc = unicode_lowercase(entry_label(c.resource));
        if text_lt(ka, kb) && text_lt(kb, kc) {
            lemma_text_lt_transitive(ka, kb, kc);
        }
    }
}

/// Whether `a` comes before `b` or with it in a section.
fn entry_le(a: &RootEntry, b: &RootEntry) -> (r: bool)
    ensures
        r == (entry_order())(*a, *b),
{
    let ka = to_lowercase(a.label().as_str());
    let kb = to_lowercase(b.label().as_str());
    text_less_or_equal(ka.as_str(), kb.as_str())
}

/// Entries sorted by lower-cased label; entries that compare equal keep
/// their order.
pub fn sort_entries(v: Vec<RootEntry>) -> (r: Vec<RootEntry>)
    ensures
        r@ == stable_sort(v@, entry_order()),
{
    stable_sort_vec(v, entry_le, Ghost(entry_order()))
}

/// A section's title, entries and collapsed flag.
pub open spec fn section_is(s: Section, spec_section: (Seq<char>, Seq<RootEntry>, bool)) -> bool {
    &&& s.title@ == spec_section.0
    &&& s.entries@ == spec_section.1
    &&& s.collapsed == spec_section.2
}

/// The resource types of the overview's type sections, with their titles.
pub open spec fn type_group(k: int) -> (ResourceType, Seq<char>) {
    if k == 0 {
        (ResourceType::Package, "Packages"@)
    } else if k == 1 {
        (ResourceType::Flatpak, "Flatpak"@)
    } else if k == 2 {
        (ResourceType::Service, "Services"@)
    } else {
        (ResourceType::Repository, "Repositories"@)
    }
}

/// The entries of one resource type, in order.
pub open spec fn entries_of_type(entries: Seq<RootEntry>, t: ResourceType) -> Seq<RootEntry> {
    entries.filter(|e: RootEntry| e.resource.resource_type == t)
}

/// The type sections over the first `k` type groups: one per group that
/// has entries, sorted.
pub open spec fn type_section_specs(entries: Seq<RootEntry>, k: int) -> Seq<
    (Seq<char>, Seq<RootEntry>, bool),
>
    decreases k,
{
    if k <= 0 {
        Seq::<(Seq<char>, Seq<RootEntry>, bool)>::empty()
    } else {
        let rest = type_section_specs(entries, k - 1);
        let (t, title) = type_group(k - 1);
        let group = entries_of_type(entries, t);
        if group.len() > 0 {
            rest.push((title, stable_sort(group, entry_order()), false))
        } else {
            rest
        }
    }
}

/// The entries of a resource type, in order.
fn entries_with_type(entries: &Vec<RootEntry>, t: ResourceType) -> (r: Vec<RootEntry>)
    ensures
        r@ == entries_of_type(entries@, t),
{
    let ghost pred = |e: RootEntry| e.resource.resource_type == t;
    let mut r: Vec<RootEntry> = Vec::new();
    let mut i: usize = 0;
    while i < entries.len()
        invariant
            i <= entries.len(),
            pred == (|e: RootEntry| e.resource.resource_type == t),
            r@ == entries@.take(i as int).filter(pred),
        decreases entries.len() - i,
    {
        proof {
            lemma_filter_step(entries@, pred, i as int);
        }
        if entries[i].resource.resource_type == t {
            r.push(copy_entry(&entries[i]));
        }
        i = i + 1;
    }
    assert(entries@.take(entries.len() as int) =~= entries@);
    r
}

/// Group roots by resource type (used before any domains are configured).
pub fn type_sections(entries: &Vec<RootEntry>) -> (r: Vec<Section>)
    ensures
        r@.len() == type_section_specs(entries@, 4).len(),
        forall|k: int|
            0 <= k < r@.len() ==> section_is(#[trigger] r@[k], type_section_specs(entries@, 4)[k]),
{
    let mut sections: Vec<Section> = Vec::new();
    let mut k: usize = 0;
    while k < 4
        invariant
            k <= 4,
            sections@.len() == type_section_specs(entries@, k as int).len(),
            forall|j: int|
                0 <= j < sections@.len() ==> section_is(
                    #[trigger] sections@[j],
                    type_section_specs(entries@, k as int)[j],
                ),
        decreases 4 - k,
    {
        let (t, title): (ResourceType, &str) = if k == 0 {
            (ResourceType::Package, "Packages")
        } else if k == 1 {
            (ResourceType::Flatpak, "Flatpak")
        } else if k == 2 {
            (ResourceType::Service, "Services")
        } else {
            (ResourceType::Repository, "Repositories")
        };
        assert(type_group(k as int) == (t, title@));
        let group = entries_with_type(entries, t);
        if group.len() > 0 {
            let sorted = sort_entries(group);
            sections.push(Section { title: String::from_str(title), entries: sorted, collapsed: false });
        }
        k = k + 1;
    }
    sections
}

/// The entry of the resource with id `id`, the first if there are several.
pub open spec fn entry_with_id(entries: Seq<RootEntry>, id: Seq<char>) -> Option<RootEntry> {
    first_match(entries, |e: RootEntry| e.resource.id@ == id)
}

/// The entries of a domain's members, in member order: for each member row
/// of the domain, the entry of its resource, when there is one.
pub open spec fn member_entries(
    members: Seq<DomainMember>,
    domain_id: Seq<char>,
    entries: Seq<RootEntry>,
) -> Seq<RootEntry>
    decreases members.len(),
{
    if members.len() == 0 {
        Seq::<RootEntry>::empty()
    } else {
        let rest = member_entries(members.drop_last(), domain_id, entries);
        let m = members.last();
        if m.domain_id@ == domain_id {
            match entry_with_id(entries, m.resource_id@) {
                Some(e) => rest.push(e),
                None => rest,
            }
        } else {
            rest
        }
    }
}

/// The domain sections over the domains: one per domain that has entries,
/// titled by the domain's name, sorted.
pub open spec fn domain_section_specs(
    domains: Seq<Domain>,
    members: Seq<DomainMember>,
    entries: Seq<RootEntry>,
) -> Seq<(Seq<char>, Seq<RootEntry>, bool)>
    decreases domains.len(),
{
    if domains.len() == 0 {
        Seq::<(Seq<char>, Seq<RootEntry>, bool)>::empty()
    } else {
        let rest = domain_section_specs(domains.drop_last(), members, entries);
        let d = domains.last();
        let es = member_entries(members, d.id@, entries);
        if es.len() > 0 {
            rest.push((d.name@, stable_sort(es, entry_order()), false))
        } else {
            rest
        }
    }
}

/// Some member row puts the resource `id` in one of the domains.
pub open spec fn in_some_domain(domains: Seq<Domain>, members: Seq<DomainMember>, id: Seq<char>) -> bool {
    exists|i: int, j: int|
        0 <= i < domains.len() && 0 <= j < members.len() && (#[trigger] members[j]).resource_id@
            == id && members[j].domain_id@ == (#[trigger] domains[i]).id@
}

/// The entries in no domain, in order.
pub open spec fn ungrouped_entries(
    domains: Seq<Domain>,
    members: Seq<DomainMember>,
    entries: Seq<RootEntry>,
) -> Seq<RootEntry> {
    entries.filter(|e: RootEntry| !in_some_domain(domains, members, e.resource.id@))
}

/// All sections when domains exist: the domain sections, then the roots in
/// no domain, collapsed.
pub open spec fn all_domain_section_specs(
    domains: Seq<Domain>,
    members: Seq<DomainMember>,
    entries: Seq<RootEntry>,
) -> Seq<(Seq<char>, Seq<RootEntry>, bool)> {
    let u = ungrouped_entries(domains, members, entries);
    domain_section_specs(domains, members, entries) + if u.len() > 0 {
        seq![("Not in a domain"@, stable_sort(u, entry_order()), true)]
    } else {
        Seq::<(Seq<char>, Seq<RootEntry>, bool)>::empty()
    }
}

/// The entry of the resource with id `id`.
fn find_entry<'a>(entries: &'a Vec<RootEntry>, id: &str) -> (r: Option<&'a RootEntry>)
    ensures
        match r {
            Some(e) => entry_with_id(entries@, id@) == Some(*e),
            None => entry_with_id(entries@, id@) is None,
        },
{
    let ghost pred = |e: RootEntry| e.resource.id@ == id@;
    let mut i: usize = 0;
    assert(entries@.take(0) =~= Seq::<RootEntry>::empty());
    while i < entries.len()
        invariant
            i <= entries@.len(),
            pred == (|e: RootEntry| e.resource.id@ == id@),
            first_match(entries@.take(i as int), pred) is None,
        decreases entries.len() - i,
    {
        if str_eq(entries[i].resource.id.as_str(), id) {
            proof {
                lemma_first_match_at(entries@, pred, i as int);
            }
            return Some(&entries[i]);
        }
        proof {
            lemma_first_match_none(entries@, pred, i as int);
        }
        i = i + 1;
    }
    assert(entries@.take(entries@.len() as int) =~= entries@);
    None
}

/// The entries of one domain's members.
fn domain_member_entries(members: &Vec<DomainMember>, domain_id: &str, entries: &Vec<RootEntry>) -> (r:
    Vec<RootEntry>)
    ensures
        r@ == member_entries(members@, domain_id@, entries@),
{
    let mut r: Vec<RootEntry> = Vec::new();
    let mut i: usize = 0;
    while i < members.len()
        invariant
            i <= members.len(),
            r@ == member_entries(members@.take(i as int), domain_id@, entries@),
        decreases members.len() - i,
    {
        let ghost t = members@.take(i + 1);
        assert(t.drop_last() =~= members@.take(i as int));
        let m = &members[i];
        if str_eq(m.domain_id.as_str(), domain_id) {
            match find_entry(entries, m.resource_id.as_str()) {
                Some(e) => {
                    r.push(copy_entry(e));
                },
                None => {},
            }
        }
        i = i + 1;
    }
    assert(members@.take(members.len() as int) =~= members@);
    r
}

/// Whether some member row puts resource `id` in one of the domains.
fn is_in_some_domain(domains: &Vec<Domain>, members: &Vec<DomainMember>, id: &str) -> (r: bool)
    ensures
        r == in_some_domain(domains@, members@, id@),
{
    let mut j: usize = 0;
    while j < members.len()
        invariant
            j <= members.len(),
            forall|jj: int, i: int|
                0 <= jj < j && 0 <= i < domains.len() ==> !((#[trigger] members@[jj]).resource_id@
                    == id@ && members@[jj].domain_id@ == (#[trigger] domains@[i]).id@),
        decreases members.len() - j,
    {
        if str_eq(members[j].resource_id.as_str(), id) {
            let mut i: usize = 0;
            while i < domains.len()
                invariant
                    i <= domains.len(),
                    j < members.len(),
                    members@[j as int].resource_id@ == id@,
                    forall|ii: int|
                        0 <= ii < i ==> members@[j as int].domain_id@ != (#[trigger] domains@[ii]).id@,
                decreases domains.len() - i,
            {
                if str_eq(domains[i].id.as_str(), members[j].domain_id.as_str()) {
                    assert(members@[j as int].resource_id@ == id@ && members@[j as int].domain_id@
                        == domains@[i as int].id@);
                    return true;
                }
                i = i + 1;
            }
        }
        j = j + 1;
    }
    false
}

/// The entries in no domain.
fn entries_in_no_domain(domains: &Vec<Domain>, members: &Vec<DomainMember>, entries: &Vec<RootEntry>) -> (r:
    Vec<RootEntry>)
    ensures
        r@ == ungrouped_entries(domains@, members@, entries@),
{
    let ghost pred = |e: RootEntry| !in_some_domain(domains@, members@, e.resource.id@);
    let mut r: Vec<RootEntry> = Vec::new();
    let mut i: usize = 0;
    while i < entries.len()
        invariant
            i <= entries.len(),
            pred == (|e: RootEntry| !in_some_domain(domains@, members@, e.resource.id@)),
            r@ == entries@.take(i as int).filter(pred),
        decreases entries.len() - i,
    {
        proof {
            lemma_filter_step(entries@, pred, i as int);
        }
        if !is_in_some_domain(domains, members, entries[i].resource.id.as_str()) {
            r.push(copy_entry(&entries[i]));
        }
        i = i + 1;
    }
    assert(entries@.take(entries.len() as int) =~= entries@);
    r
}

/// Group roots by domain. Roots in no domain fall into a final section.
pub fn domain_sections(store: &Store, domain_list: &Vec<Domain>, entries: &Vec<RootEntry>) -> (r: Vec<
    Section,
>)
    ensures
        r@.len() == all_domain_section_specs(domain_list@, store.domain_members@, entries@).len(),
        forall|k: int|
            0 <= k < r@.len() ==> section_is(
                #[trigger] r@[k],
                all_domain_section_specs(domain_list@, store.domain_members@, entries@)[k],
            ),
{
    let ghost members = store.domain_members@;
    let mut sections: Vec<Section> = Vec::new();
    let mut k: usize = 0;
    while k < domain_list.len()
        invariant
            k <= domain_list.len(),
            members == store.domain_members@,
            sections@.len() == domain_section_specs(
                domain_list@.take(k as int),
                members,
                entries@,
            ).len(),
            forall|j: int|
                0 <= j < sections@.len() ==> section_is(
                    #[trigger] sections@[j],
                    domain_section_specs(domain_list@.take(k as int), members, entries@)[j],
                ),
        decreases domain_list.len() - k,
    {
        let ghost t = domain_list@.take(k + 1);
        assert(t.drop_last() =~= domain_list@.take(k as int));
        let domain = &domain_list[k];
        let domain_entries = domain_member_entries(
            &store.domain_members,
            domain.id.as_str(),
            entries,
        );
        if domain_entries.len() > 0 {
            let sorted = sort_entries(domain_entries);
            sections.push(Section { title: domain.name.clone(), entries: sorted, collapsed: false });
        }
        k = k + 1;
    }
    assert(domain_list@.take(domain_list.len() as int) =~= domain_list@);
    let ungrouped = entries_in_no_domain(domain_list, &store.domain_members, entries);
    if ungrouped.len() > 0 {
        let sorted = sort_entries(ungrouped);
        sections.push(
            Section { title: String::from_str("Not in a domain"), entries: sorted, collapsed: true },
        );
    }
    sections
}

/// Some observation of the resource `id` says it is not installed.
pub open spec fn observed_missing(observations: Seq<Observation>, id: Seq<char>) -> bool {
    exists|i: int|
        0 <= i < observations.len() && (#[trigger] observations[i]).resource_id@ == id
            && observations[i].installed == Some(false)
}

/// The first resource with the given id.
pub open spec fn resource_with_id(resources: Seq<Resource>, id: Seq<char>) -> Option<Resource> {
    first_match(resources, |r: Resource| r.id@ == id)
}

/// The entries of the first `k` roots whose resource exists, in root order.
pub open spec fn root_entries(store: Store, k: int) -> Seq<RootEntry>
    decreases k,
{
    if k <= 0 {
        Seq::<RootEntry>::empty()
    } else {
        let rest = root_entries(store, k - 1);
        let root = store.roots@[k - 1];
        match resource_with_id(store.resources@, root.resource_id@) {
            Some(r) => rest.push(
                RootEntry {
                    resource: r,
                    source: root.source,
                    missing: observed_missing(store.observations@, r.id@),
                },
            ),
            None => rest,
        }
    }
}

/// The entries of all roots whose resource exists.
pub open spec fn all_root_entries(store: Store) -> Seq<RootEntry> {
    root_entries(store, store.roots@.len() as int)
}

/// The order of domains: by name.
pub open spec fn domain_order() -> spec_fn(Domain, Domain) -> bool {
    |a: Domain, b: Domain| text_le(a.name@, b.name@)
}

/// The sections of the overview of `store`: by domain (domains ordered by
/// name) when domains exist, else by resource type.
pub open spec fn overview_section_specs(store: Store) -> Seq<(Seq<char>, Seq<RootEntry>, bool)> {
    if store.domains@.len() > 0 {
        all_domain_section_specs(
            stable_sort(store.domains@, domain_order()),
            store.domain_members@,
            all_root_entries(store),
        )
    } else {
        type_section_specs(all_root_entries(store), 4)
    }
}

/// The first resource with the given id.
pub(crate) fn find_resource_by_id<'a>(resources: &'a Vec<Resource>, id: &str) -> (r: Option<&'a Resource>)
    ensures
        match r {
            Some(res) => resource_with_id(resources@, id@) == Some(*res),
            None => resource_with_id(resources@, id@) is None,
        },
{
    let ghost pred = |r: Resource| r.id@ == id@;
    let mut i: usize = 0;
    assert(resources@.take(0) =~= Seq::<Resource>::empty());
    while i < resources.len()
        invariant
            i <= resources@.len(),
            pred == (|r: Resource| r.id@ == id@),
            first_match(resources@.take(i as int), pred) is None,
        decreases resources.len() - i,
    {
        if str_eq(resources[i].id.as_str(), id) {
            proof {
                lemma_first_match_at(resources@, pred, i as int);
            }
            return Some(&resources[i]);
        }
        proof {
            lemma_first_match_none(resources@, pred, i as int);
        }
        i = i + 1;
    }
    assert(resources@.take(resources@.len() as int) =~= resources@);
    None
}

/// Whether some observation says the resource is not installed.
pub(crate) fn is_observed_missing(observations: &Vec<Observation>, id: &str) -> (r: bool)
    ensures
        r == observed_missing(observations@, id@),
{
    let mut i: usize = 0;
    while i < observations.len()
        invariant
            i <= observations.len(),
            forall|k: int|
                0 <= k < i ==> !((#[trigger] observations@[k]).resource_id@ == id@
                    && observations@[k].installed == Some(false)),
        decreases observations.len() - i,
    {
        let o = &observations[i];
        if str_eq(o.resource_id.as_str(), id) && o.installed == Some(false) {
            return true;
        }
        i = i + 1;
    }
    false
}

/// Whether domain `a` comes before `b` or with it: by name.
fn domain_le(a: &Domain, b: &Domain) -> (r: bool)
    ensures
        r == (domain_order())(*a, *b),
{
    text_less_or_equal(a.name.as_str(), b.name.as_str())
}

/// Domains sorted by name; domains with equal names keep their order.
fn sort_domains(domains: &Vec<Domain>) -> (r: Vec<Domain>)
    ensures
        r@ == stable_sort(domains@, domain_order()),
{
    let mut copies: Vec<Domain> = Vec::new();
    let mut i: usize = 0;
    while i < domains.len()
        invariant
            i <= domains.len(),
            copies@ == domains@.take(i as int),
        decreases domains.len() - i,
    {
        copies.push(copy_domain(&domains[i]));
        i = i + 1;
        assert(copies@ =~= domains@.take(i as int));
    }
    assert(domains@.take(domains.len() as int) =~= domains@);
    stable_sort_vec(copies, domain_le, Ghost(domain_order()))
}

/// The number of missing entries.
fn count_missing(entries: &Vec<RootEntry>) -> (n: usize)
    ensures
        n == entries@.filter(|e: RootEntry| e.missing).len(),
{
    let ghost pred = |e: RootEntry| e.missing;
    let mut n: usize = 0;
    let mut i: usize = 0;
    while i < entries.len()
        invariant
            i <= entries.len(),
            pred == (|e: RootEntry| e.missing),
            n == entries@.take(i as int).filter(pred).len(),
            n <= i,
        decreases entries.len() - i,
    {
        proof {
            lemma_filter_step(entries@, pred, i as int);
        }
        if entries[i].missing {
            n = n + 1;
        }
        i = i + 1;
    }
    assert(entries@.take(entries.len() as int) =~= entries@);
    n
}

/// Build the overview from the knowledge base.
pub fn build(store: &Store) -> (o: Overview)
    ensures
        o.has_domains == (store.domains@.len() > 0),
        o.sections@.len() == overview_section_specs(*store).len(),
        forall|k: int|
            0 <= k < o.sections@.len() ==> section_is(
                #[trigger] o.sections@[k],
                overview_section_specs(*store)[k],
            ),
        o.root_count == all_root_entries(*store).len(),
        o.missing_count == all_root_entries(*store).filter(|e: RootEntry| e.missing).len(),
        o.resource_count == store.resources@.len(),
        o.relationship_count == store.relationships@.len(),
{
    let ghost st = *store;
    let mut entries: Vec<RootEntry> = Vec::new();
    let mut i: usize = 0;
    while i < store.roots.len()
        invariant
            i <= store.roots.len(),
            st == *store,
            entries@ == root_entries(st, i as int),
        decreases store.roots.len() - i,
    {
        let root = &store.roots[i];
        match find_resource_by_id(&store.resources, root.resource_id.as_str()) {
            Some(resource) => {
                let missing = is_observed_missing(&store.observations, resource.id.as_str());
                entries.push(
                    RootEntry { resource: copy_resource(resource), source: root.source, missing },
                );
            },
            None => {},
        }
        i = i + 1;
    }
    let has_domains = store.domains.len() > 0;
    let sections = if has_domains {
        let domain_list = sort_domains(&store.domains);
        domain_sections(store, &domain_list, &entries)
    } else {
        type_sections(&entries)
    };
    let missing_count = count_missing(&entries);
    Overview {
        sections,
        has_domains,
        root_count: entries.len(),
        missing_count,
        resource_count: store.resources.len(),
        relationship_count: store.relationships.len(),
    }
}


// ---------------------------------------------------------------------------
// What every overview shows
// ---------------------------------------------------------------------------

proof fn lemma_type_specs_sorted(entries: Seq<RootEntry>, n: int)
    ensures
        forall|k: int|
            0 <= k < type_section_specs(entries, n).len() ==> sorted_by(
                #[trigger] type_section_specs(entries, n)[k].1,
                entry_order(),
            ),
    decreases n,
{
    if n > 0 {
        lemma_type_specs_sorted(entries, n - 1);
        lemma_entry_order_total_preorder();
        let (t, title) = type_group(n - 1);
        lemma_stable_sort_sorted(entries_of_type(entries, t), entry_order());
        let rest = type_section_specs(entries, n - 1);
        let all = type_section_specs(entries, n);
        assert forall|k: int| 0 <= k < all.len() implies sorted_by(#[trigger] all[k].1, entry_order()) by {
            if k < rest.len() {
                assert(all[k] == rest[k]);
            }
        }
    }
}

proof fn lemma_domain_specs_sorted(domains: Seq<Domain>, members: Seq<DomainMember>, entries: Seq<RootEntry>)
    ensures
        forall|k: int|
            0 <= k < domain_section_specs(domains, members, entries).len() ==> sorted_by(
                #[trigger] domain_section_specs(domains, members, entries)[k].1,
                entry_order(),
            ),
    decreases domains.len(),
{
    if domains.len() > 0 {
        lemma_domain_specs_sorted(domains.drop_last(), members, entries);
        lemma_entry_order_total_preorder();
        lemma_stable_sort_sorted(member_entries(members, domains.last().id@, entries), entry_order());
        let rest = domain_section_specs(domains.drop_last(), members, entries);
        let all = domain_section_specs(domains, members, entries);
        assert forall|k: int| 0 <= k < all.len() implies sorted_by(#[trigger] all[k].1, entry_order()) by {
            if k < rest.len() {
                assert(all[k] == rest[k]);
            }
        }
    }
}

/// Every section of the overview lists its entries by lower-cased label.
pub proof fn law_overview_sections_sorted(store: Store, k: int)
    requires
        0 <= k < overview_section_specs(store).len(),
    ensures
        sorted_by(overview_section_specs(store)[k].1, entry_order()),
{
    let entries = all_root_entries(store);
    if store.domains@.len() > 0 {
        let domains = stable_sort(store.domains@, domain_order());
        let members = store.domain_members@;
        lemma_domain_specs_sorted(domains, members, entries);
        let d = domain_section_specs(domains, members, entries);
        if k >= d.len() {
            lemma_entry_order_total_preorder();
            lemma_stable_sort_sorted(ungrouped_entries(domains, members, entries), entry_order());
        }
    } else {
        lemma_type_specs_sorted(entries, 4);
    }
}

/// The sections over more type groups extend those over fewer.
proof fn lemma_type_specs_prefix(entries: Seq<RootEntry>, n: int, m: int)
    requires
        0 <= n <= m,
    ensures
        type_section_specs(entries, n).len() <= type_section_specs(entries, m).len(),
        forall|k: int|
            0 <= k < type_section_specs(entries, n).len() ==> #[trigger] type_section_specs(
                entries,
                m,
            )[k] == type_section_specs(entries, n)[k],
    decreases m - n,
{
    if m > n {
        lemma_type_specs_prefix(entries, n, m - 1);
    }
}

/// The type group of a resource type.
pub open spec fn group_index(t: ResourceType) -> int {
    match t {
        ResourceType::Package => 0,
        ResourceType::Flatpak => 1,
        ResourceType::Service => 2,
        ResourceType::Repository => 3,
    }
}

proof fn lemma_type_specs_show(entries: Seq<RootEntry>, e: RootEntry)
    requires
        entries.contains(e),
    ensures
        exists|k: int|
            0 <= k < type_section_specs(entries, 4).len() && (#[trigger] type_section_specs(
                entries,
                4,
            )[k]).1.contains(e),
{
    let g = group_index(e.resource.resource_type);
    let t = e.resource.resource_type;
    assert(type_group(g).0 == t);
    let pred = |x: RootEntry| x.resource.resource_type == t;
    let i = choose|i: int| 0 <= i < entries.len() && entries[i] == e;
    entries.lemma_filter_contains(pred, i);
    let group = entries_of_type(entries, t);
    assert(group.contains(e));
    lemma_stable_sort_contains(group, entry_order(), e);
    let before = type_section_specs(entries, g);
    assert(type_section_specs(entries, g + 1) == before.push(
        (type_group(g).1, stable_sort(group, entry_order()), false),
    ));
    lemma_type_specs_prefix(entries, g + 1, 4);
    assert(type_section_specs(entries, 4)[before.len() as int].1.contains(e));
}

proof fn lemma_member_entries_contain(
    members: Seq<DomainMember>,
    domain_id: Seq<char>,
    entries: Seq<RootEntry>,
    j: int,
    x: RootEntry,
)
    requires
        0 <= j < members.len(),
        members[j].domain_id@ == domain_id,
        entry_with_id(entries, members[j].resource_id@) == Some(x),
    ensures
        member_entries(members, domain_id, entries).contains(x),
    decreases members.len(),
{
    let t = members.drop_last();
    if j < members.len() - 1 {
        lemma_member_entries_contain(t, domain_id, entries, j, x);
        let es = member_entries(t, domain_id, entries);
        let i = choose|i: int| 0 <= i < es.len() && es[i] == x;
        assert(member_entries(members, domain_id, entries)[i] == x);
    } else {
        let es = member_entries(t, domain_id, entries);
        assert(member_entries(members, domain_id, entries) == es.push(x));
        assert(es.push(x)[es.len() as int] == x);
    }
}

proof fn lemma_domain_specs_show(
    domains: Seq<Domain>,
    members: Seq<DomainMember>,
    entries: Seq<RootEntry>,
    i: int,
    x: RootEntry,
)
    requires
        0 <= i < domains.len(),
        member_entries(members, domains[i].id@, entries).contains(x),
    ensures
        exists|k: int|
            0 <= k < domain_section_specs(domains, members, entries).len() && (
            #[trigger] domain_section_specs(domains, members, entries)[k]).1.contains(x),
    decreases domains.len(),
{
    let t = domains.drop_last();
    let rest = domain_section_specs(t, members, entries);
    if i < domains.len() - 1 {
        lemma_domain_specs_show(t, members, entries, i, x);
        let k = choose|k: int| 0 <= k < rest.len() && (#[trigger] rest[k]).1.contains(x);
        assert(domain_section_specs(domains, members, entries)[k] == rest[k]);
    } else {
        let es = member_entries(members, domains.last().id@, entries);
        lemma_stable_sort_contains(es, entry_order(), x);
        assert(domain_section_specs(domains, members, entries)[rest.len() as int].1.contains(x));
    }
}

/// Every root is shown: each root entry of the store, or an entry for the
/// same resource, is listed in some section of the overview — in its type's
/// section before domains exist, afterwards in each domain it belongs to or
/// in the final section of roots in no domain.
pub proof fn law_overview_shows_every_root(store: Store, e: RootEntry)
    requires
        all_root_entries(store).contains(e),
    ensures
        exists|k: int, x: RootEntry|
            #![trigger overview_section_specs(store)[k].1.contains(x)]
            0 <= k < overview_section_specs(store).len() && overview_section_specs(store)[k].1.contains(x)
                && x.resource.id@ == e.resource.id@,
{
    let entries = all_root_entries(store);
    let specs = overview_section_specs(store);
    if store.domains@.len() > 0 {
        let domains = stable_sort(store.domains@, domain_order());
        let members = store.domain_members@;
        let d = domain_section_specs(domains, members, entries);
        if in_some_domain(domains, members, e.resource.id@) {
            let (i, j) = choose|i: int, j: int|
                0 <= i < domains.len() && 0 <= j < members.len() && (#[trigger] members[j]).resource_id@
                    == e.resource.id@ && members[j].domain_id@ == (#[trigger] domains[i]).id@;
            let pred = |y: RootEntry| y.resource.id@ == e.resource.id@;
            let p = choose|p: int| 0 <= p < entries.len() && entries[p] == e;
            lemma_first_match_some(entries, pred, p);
            let x = entry_with_id(entries, e.resource.id@)->0;
            lemma_member_entries_contain(members, domains[i].id@, entries, j, x);
            lemma_domain_specs_show(domains, members, entries, i, x);
            let k = choose|k: int| 0 <= k < d.len() && (#[trigger] d[k]).1.contains(x);
            assert(specs[k] == d[k]);
            assert(x.resource.id@ == e.resource.id@);
        } else {
            let upred = |y: RootEntry| !in_some_domain(domains, members, y.resource.id@);
            let p = choose|p: int| 0 <= p < entries.len() && entries[p] == e;
            entries.lemma_filter_contains(upred, p);
            let u = ungrouped_entries(domains, members, entries);
            assert(u.contains(e));
            lemma_stable_sort_contains(u, entry_order(), e);
            assert(specs[d.len() as int].1.contains(e));
        }
    } else {
        lemma_type_specs_show(entries, e);
    }
}

} // verus!
