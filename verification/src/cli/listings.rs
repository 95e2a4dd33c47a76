//! What the `services`, `repositories`, `packages` and `flatpaks` listings
//! compute: services by state, repositories with their package counts, the
//! installed packages by reason and origin, and the origins of Flatpak apps.
use vstd::prelude::*;

use crate::cli::show::{count_incoming, find_observation, incoming_count, observation_of};
use crate::discovery::flatpaks::{FlatpakRecord, FlatpakSnapshot};
use crate::discovery::packages::{InstallReason, PackageRecord, RepoRecord, SystemSnapshot};
use crate::model::analysis::copy_resource;
use crate::model::observation::Observation;
use crate::model::relationship::RelationshipType;
use crate::model::resource::{Resource, ResourceType};
use crate::model::root_policy::{opt_view, string_views};
use crate::model::store::Store;
use crate::order::{
    lemma_stable_sort_contains, lemma_stable_sort_sorted, lemma_text_lt_transitive,
    lemma_text_order_total_preorder, sort_texts, sorted_by, stable_sort, stable_sort_vec, text_le,
    text_less_or_equal, text_lt, text_order,
};
use crate::text::str_eq;

verus! {

// ---------------------------------------------------------------------------
// Services
// ---------------------------------------------------------------------------

/// An active service, with whether its unit is enabled, when recorded.
#[derive(Debug, Clone)]
pub struct ActiveService {
    pub resource: Resource,
    pub enabled: Option<bool>,
}

/// The services of the knowledge base by state: active, failed, and the
/// rest, each in table order.
#[derive(Debug)]
pub struct ServiceListing {
    pub active: Vec<ActiveService>,
    pub failed: Vec<Resource>,
    pub inactive: Vec<Resource>,
}

/// The service's observation records it as failed.
pub open spec fn failed_in(o: Option<Observation>) -> bool {
    o matches Some(obs) && obs.failed == Some(true)
}

/// The service's observation records it as active.
pub open spec fn active_in(o: Option<Observation>) -> bool {
    o matches Some(obs) && obs.active == Some(true)
}

/// The enabled flag recorded in an observation.
pub open spec fn enabled_in(o: Option<Observation>) -> Option<bool> {
    match o {
        Some(obs) => obs.enabled,
        None => None,
    }
}

/// The services among `resources` by state: (active with enabled flag,
/// failed, inactive), in table order. A failed service counts as failed
/// even when it is also recorded active.
pub open spec fn service_groups(resources: Seq<Resource>, observations: Seq<Observation>) -> (
    Seq<(Resource, Option<bool>)>,
    Seq<Resource>,
    Seq<Resource>,
)
    decreases resources.len(),
{
    if resources.len() == 0 {
        (Seq::empty(), Seq::empty(), Seq::empty())
    } else {
        let (a, f, o) = service_groups(resources.drop_last(), observations);
        let r = resources.last();
        let obs = observation_of(observations, r.id@);
        if r.resource_type != ResourceType::Service {
            (a, f, o)
        } else if failed_in(obs) {
            (a, f.push(r), o)
        } else if active_in(obs) {
            (a.push((r, enabled_in(obs))), f, o)
        } else {
            (a, f, o.push(r))
        }
    }
}

/// The views of active services.
pub open spec fn active_views(v: Seq<ActiveService>) -> Seq<(Resource, Option<bool>)> {
    v.map_values(|s: ActiveService| (s.resource, s.enabled))
}

/// The services of the knowledge base by state.
pub fn list_services(store: &Store) -> (l: ServiceListing)
    ensures
        (active_views(l.active@), l.failed@, l.inactive@) == service_groups(
            store.resources@,
            store.observations@,
        ),
{
    let mut active: Vec<ActiveService> = Vec::new();
    let mut failed: Vec<Resource> = Vec::new();
    let mut inactive: Vec<Resource> = Vec::new();
    let mut i: usize = 0;
    while i < store.resources.len()
        invariant
            i <= store.resources@.len(),
            (active_views(active@), failed@, inactive@) == service_groups(
                store.resources@.take(i as int),
                store.observations@,
            ),
        decreases store.resources.len() - i,
    {
        let ghost t = store.resources@.take(i + 1);
        assert(t.drop_last() =~= store.resources@.take(i as int));
        let r = &store.resources[i];
        if r.resource_type == ResourceType::Service {
            let obs = find_observation(&store.observations, r.id.as_str());
            let (is_failed, is_active, enabled) = match &obs {
                Some(o) => (o.failed == Some(true), o.active == Some(true), o.enabled),
                None => (false, false, None),
            };
            if is_failed {
                failed.push(copy_resource(r));
            } else if is_active {
                let ghost before = active@;
                active.push(ActiveService { resource: copy_resource(r), enabled });
                assert(active_views(active@) =~= active_views(before).push((*r, enabled)));
            } else {
                inactive.push(copy_resource(r));
            }
        }
        i = i + 1;
    }
    assert(store.resources@.take(i as int) =~= store.resources@);
    ServiceListing { active, failed, inactive }
}

// ---------------------------------------------------------------------------
// Roots of one type
// ---------------------------------------------------------------------------

/// The version recorded for the resource with id `id`.
pub open spec fn recorded_version(observations: Seq<Observation>, id: Seq<char>) -> Option<Seq<char>> {
    match observation_of(observations, id) {
        Some(o) => opt_view(o.version),
        None => None,
    }
}

/// The version recorded for a resource.
pub fn observed_version(store: &Store, resource_id: &str) -> (r: Option<String>)
    ensures
        opt_view(r) == recorded_version(store.observations@, resource_id@),
{
    match find_observation(&store.observations, resource_id) {
        Some(o) => o.version,
        None => None,
    }
}

/// The number of resources of type `t`.
pub open spec fn type_count(resources: Seq<Resource>, t: ResourceType) -> nat
    decreases resources.len(),
{
    if resources.len() == 0 {
        0
    } else {
        type_count(resources.drop_last(), t) + if resources.last().resource_type == t {
            1nat
        } else {
            0nat
        }
    }
}

/// The number of resources of a type.
pub fn count_of_type(store: &Store, t: ResourceType) -> (n: usize)
    ensures
        n == type_count(store.resources@, t),
{
    let mut n: usize = 0;
    let mut i: usize = 0;
    while i < store.resources.len()
        invariant
            i <= store.resources@.len(),
            n == type_count(store.resources@.take(i as int), t),
            n <= i,
        decreases store.resources.len() - i,
    {
        let ghost s = store.resources@.take(i + 1);
        assert(s.drop_last() =~= store.resources@.take(i as int));
        if store.resources[i].resource_type == t {
            n = n + 1;
        }
        i = i + 1;
    }
    assert(store.resources@.take(i as int) =~= store.resources@);
    n
}

// ---------------------------------------------------------------------------
// Repositories
// ---------------------------------------------------------------------------

/// The repositories among `resources`, each with the number of
/// relationships saying that something comes from it, in table order.
pub open spec fn repository_counts(resources: Seq<Resource>, store: Store) -> Seq<(Resource, nat)>
    decreases resources.len(),
{
    if resources.len() == 0 {
        Seq::empty()
    } else {
        let rest = repository_counts(resources.drop_last(), store);
        let r = resources.last();
        if r.resource_type == ResourceType::Repository {
            rest.push((r, incoming_count(store.relationships@, r.id@, RelationshipType::ComesFrom)))
        } else {
            rest
        }
    }
}

/// The repositories of the knowledge base with their package counts.
pub fn list_repositories(store: &Store) -> (r: Vec<(Resource, usize)>)
    ensures
        r@.map_values(|e: (Resource, usize)| (e.0, e.1 as nat)) == repository_counts(
            store.resources@,
            *store,
        ),
{
    let mut r: Vec<(Resource, usize)> = Vec::new();
    let mut i: usize = 0;
    while i < store.resources.len()
        invariant
            i <= store.resources@.len(),
            r@.map_values(|e: (Resource, usize)| (e.0, e.1 as nat)) == repository_counts(
                store.resources@.take(i as int),
                *store,
            ),
        decreases store.resources.len() - i,
    {
        let ghost t = store.resources@.take(i + 1);
        assert(t.drop_last() =~= store.resources@.take(i as int));
        let res = &store.resources[i];
        if res.resource_type == ResourceType::Repository {
            let n = count_incoming(&store.relationships, res.id.as_str(), RelationshipType::ComesFrom);
            let ghost before = r@;
            r.push((copy_resource(res), n));
            assert(r@.map_values(|e: (Resource, usize)| (e.0, e.1 as nat)) =~= before.map_values(
                |e: (Resource, usize)| (e.0, e.1 as nat),
            ).push((*res, n as nat)));
        }
        i = i + 1;
    }
    assert(store.resources@.take(i as int) =~= store.resources@);
    r
}

// ---------------------------------------------------------------------------
// Installed packages
// ---------------------------------------------------------------------------

/// An enabled repository and how many installed packages came from it.
#[derive(Debug, Clone)]
pub struct RepoUsage {
    pub repo: RepoRecord,
    pub installed: usize,
}

/// What `packages --all` reports about the installed packages.
#[derive(Debug)]
pub struct PackageReport {
    pub total: usize,
    pub user: usize,
    pub dependency: usize,
    pub group: usize,
    pub repositories: usize,
    /// The enabled repositories, in order, with their installed packages.
    pub enabled: Vec<RepoUsage>,
    /// The positions of the user-installed packages in the snapshot, sorted
    /// by package name; packages of the same name keep their order.
    pub user_packages: Vec<usize>,
}

/// The number of packages originally installed from repository `id`.
pub open spec fn installed_from(packages: Seq<PackageRecord>, id: Seq<char>) -> nat
    decreases packages.len(),
{
    if packages.len() == 0 {
        0
    } else {
        installed_from(packages.drop_last(), id) + if packages.last().from_repo matches Some(r)
            && r@ == id {
            1nat
        } else {
            0nat
        }
    }
}

/// The enabled repositories with their installed-package counts, in order.
pub open spec fn enabled_usage(repos: Seq<RepoRecord>, packages: Seq<PackageRecord>) -> Seq<(RepoRecord, nat)>
    decreases repos.len(),
{
    if repos.len() == 0 {
        Seq::empty()
    } else {
        let rest = enabled_usage(repos.drop_last(), packages);
        let r = repos.last();
        if r.is_enabled {
            rest.push((r, installed_from(packages, r.id@)))
        } else {
            rest
        }
    }
}

/// The user-installed packages of `packages`, each by name and position,
/// in order.
pub open spec fn user_keys(packages: Seq<PackageRecord>) -> Seq<(Seq<char>, int)>
    decreases packages.len(),
{
    if packages.len() == 0 {
        Seq::empty()
    } else {
        let rest = user_keys(packages.drop_last());
        if packages.last().reason == InstallReason::User {
            rest.push((packages.last().name@, packages.len() - 1))
        } else {
            rest
        }
    }
}

/// Keys ordered by name.
pub open spec fn key_order() -> spec_fn((Seq<char>, int), (Seq<char>, int)) -> bool {
    |a: (Seq<char>, int), b: (Seq<char>, int)| text_le(a.0, b.0)
}

/// The view of an exec key.
pub open spec fn key_view(k: (String, usize)) -> (Seq<char>, int) {
    (k.0@, k.1 as int)
}

/// `r` is the report of `s`.
pub open spec fn report_of(r: PackageReport, s: SystemSnapshot) -> bool {
    &&& r.total == s.packages@.len()
    &&& r.user == s.reason_count(InstallReason::User)
    &&& r.dependency == s.reason_count(InstallReason::Dependency)
    &&& r.group == s.reason_count(InstallReason::Group)
    &&& r.repositories == s.repositories@.len()
    &&& r.enabled@.map_values(|u: RepoUsage| (u.repo, u.installed as nat)) == enabled_usage(
        s.repositories@,
        s.packages@,
    )
    &&& r.user_packages@.map_values(|i: usize| i as int) == stable_sort(
        user_keys(s.packages@),
        key_order(),
    ).map_values(|k: (Seq<char>, int)| k.1)
}

fn key_le(a: &(String, usize), b: &(String, usize)) -> (r: bool)
    ensures
        r == text_le(a.0@, b.0@),
{
    text_less_or_equal(a.0.as_str(), b.0.as_str())
}

fn count_from(packages: &Vec<PackageRecord>, id: &str) -> (n: usize)
    ensures
        n == installed_from(packages@, id@),
{
    let mut n: usize = 0;
    let mut i: usize = 0;
    while i < packages.len()
        invariant
            i <= packages@.len(),
            n == installed_from(packages@.take(i as int), id@),
            n <= i,
        decreases packages.len() - i,
    {
        let ghost t = packages@.take(i + 1);
        assert(t.drop_last() =~= packages@.take(i as int));
        let hit = match &packages[i].from_repo {
            Some(r) => str_eq(r.as_str(), id),
            None => false,
        };
        if hit {
            n = n + 1;
        }
        i = i + 1;
    }
    assert(packages@.take(i as int) =~= packages@);
    n
}

/// The report `packages --all` prints about a package snapshot.
pub fn package_report(s: &SystemSnapshot) -> (r: PackageReport)
    ensures
        report_of(r, *s),
{
    let mut enabled: Vec<RepoUsage> = Vec::new();
    let mut i: usize = 0;
    while i < s.repositories.len()
        invariant
            i <= s.repositories@.len(),
            enabled@.map_values(|u: RepoUsage| (u.repo, u.installed as nat)) == enabled_usage(
                s.repositories@.take(i as int),
                s.packages@,
            ),
        decreases s.repositories.len() - i,
    {
        let ghost t = s.repositories@.take(i + 1);
        assert(t.drop_last() =~= s.repositories@.take(i as int));
        let repo = &s.repositories[i];
        if repo.is_enabled {
            let n = count_from(&s.packages, repo.id.as_str());
            let copy = RepoRecord { id: repo.id.clone(), name: repo.name.clone(), is_enabled: repo.is_enabled };
            let ghost before = enabled@;
            enabled.push(RepoUsage { repo: copy, installed: n });
            assert(enabled@.map_values(|u: RepoUsage| (u.repo, u.installed as nat)) =~= before.map_values(
                |u: RepoUsage| (u.repo, u.installed as nat),
            ).push((*repo, n as nat)));
        }
        i = i + 1;
    }
    assert(s.repositories@.take(i as int) =~= s.repositories@);
    let mut keys: Vec<(String, usize)> = Vec::new();
    let mut j: usize = 0;
    while j < s.packages.len()
        invariant
            j <= s.packages@.len(),
            keys@.map_values(|k: (String, usize)| key_view(k)) == user_keys(s.packages@.take(j as int)),
        decreases s.packages.len() - j,
    {
        let ghost t = s.packages@.take(j + 1);
        assert(t.drop_last() =~= s.packages@.take(j as int));
        if s.packages[j].reason == InstallReason::User {
            let ghost before = keys@;
            keys.push((s.packages[j].name.clone(), j));
            assert(keys@.map_values(|k: (String, usize)| key_view(k)) =~= before.map_values(
                |k: (String, usize)| key_view(k),
            ).push((s.packages@[j as int].name@, j as int)));
        }
        j = j + 1;
    }
    assert(s.packages@.take(j as int) =~= s.packages@);
    let ghost key_seq = keys@;
    let ghost le = |a: (String, usize), b: (String, usize)| text_le(a.0@, b.0@);
    let sorted = stable_sort_vec(keys, key_le, Ghost(le));
    proof {
        crate::order::lemma_stable_sort_map(key_seq, le, |k: (String, usize)| key_view(k), key_order());
        assert(stable_sort(key_seq, le).map_values(|k: (String, usize)| key_view(k)).map_values(
            |k: (Seq<char>, int)| k.1,
        ) =~= sorted@.map_values(|e: (String, usize)| e.1 as int));
    }
    let mut user_packages: Vec<usize> = Vec::new();
    let mut k: usize = 0;
    while k < sorted.len()
        invariant
            k <= sorted@.len(),
            user_packages@.map_values(|i: usize| i as int) == sorted@.take(k as int).map_values(
                |e: (String, usize)| e.1 as int,
            ),
        decreases sorted.len() - k,
    {
        let ghost before = user_packages@;
        user_packages.push(sorted[k].1);
        assert(user_packages@.map_values(|i: usize| i as int) =~= before.map_values(|i: usize| i as int).push(
            sorted@[k as int].1 as int,
        ));
        assert(sorted@.take(k + 1) =~= sorted@.take(k as int).push(sorted@[k as int]));
        assert(user_packages@.map_values(|i: usize| i as int) =~= sorted@.take(k + 1).map_values(
            |e: (String, usize)| e.1 as int,
        ));
        k = k + 1;
    }
    assert(sorted@.take(k as int) =~= sorted@);
    PackageReport {
        total: s.packages.len(),
        user: s.user_installed_count(),
        dependency: s.dependency_count(),
        group: s.group_count(),
        repositories: s.repositories.len(),
        enabled,
        user_packages,
    }
}

// ---------------------------------------------------------------------------
// Flatpak origins
// ---------------------------------------------------------------------------

/// Adjacent repeats removed.
pub open spec fn dedup_adjacent(s: Seq<Seq<char>>) -> Seq<Seq<char>>
    decreases s.len(),
{
    if s.len() == 0 {
        s
    } else {
        let rest = dedup_adjacent(s.drop_last());
        if rest.len() > 0 && rest.last() == s.last() {
            rest
        } else {
            rest.push(s.last())
        }
    }
}

/// The origins of the installed apps, in order.
pub open spec fn app_origins(apps: Seq<FlatpakRecord>) -> Seq<Seq<char>> {
    apps.map_values(|a: FlatpakRecord| a.origin@)
}

/// The origins of the installed apps, sorted, each once.
pub fn flatpak_origins(s: &FlatpakSnapshot) -> (r: Vec<String>)
    ensures
        string_views(r@) == dedup_adjacent(stable_sort(app_origins(s.apps@), text_order())),
{
    let mut origins: Vec<String> = Vec::new();
    let mut i: usize = 0;
    while i < s.apps.len()
        invariant
            i <= s.apps@.len(),
            string_views(origins@) == app_origins(s.apps@.take(i as int)),
        decreases s.apps.len() - i,
    {
        let ghost before = origins@;
        origins.push(s.apps[i].origin.clone());
        assert(string_views(origins@) =~= string_views(before).push(s.apps@[i as int].origin@));
        assert(s.apps@.take(i + 1) =~= s.apps@.take(i as int).push(s.apps@[i as int]));
        assert(string_views(origins@) =~= app_origins(s.apps@.take(i + 1)));
        i = i + 1;
    }
    assert(s.apps@.take(i as int) =~= s.apps@);
    let sorted = sort_texts(origins);
    let ghost sv = string_views(sorted@);
    let mut r: Vec<String> = Vec::new();
    let mut k: usize = 0;
    while k < sorted.len()
        invariant
            k <= sorted@.len(),
            sv == string_views(sorted@),
            string_views(r@) == dedup_adjacent(sv.take(k as int)),
        decreases sorted.len() - k,
    {
        let ghost t = sv.take(k + 1);
        assert(t.drop_last() =~= sv.take(k as int));
        let repeat = r.len() > 0 && str_eq(r[r.len() - 1].as_str(), sorted[k].as_str());
        if !repeat {
            r.push(sorted[k].clone());
            assert(string_views(r@) =~= dedup_adjacent(sv.take(k as int)).push(sv[k as int]));
        }
        k = k + 1;
    }
    assert(sv.take(k as int) =~= sv);
    r
}


proof fn lemma_dedup_last(s: Seq<Seq<char>>)
    requires
        s.len() > 0,
    ensures
        dedup_adjacent(s).len() > 0,
        dedup_adjacent(s).last() == s.last(),
{
}

proof fn lemma_dedup_contains(s: Seq<Seq<char>>, x: Seq<char>)
    ensures
        dedup_adjacent(s).contains(x) <==> s.contains(x),
    decreases s.len(),
{
    if s.len() > 0 {
        let t = s.drop_last();
        lemma_dedup_contains(t, x);
        let d = dedup_adjacent(t);
        if s.contains(x) {
            let i = choose|i: int| 0 <= i < s.len() && s[i] == x;
            if i < s.len() - 1 {
                assert(t[i] == x);
                let j = choose|j: int| 0 <= j < d.len() && d[j] == x;
                if !(d.len() > 0 && d.last() == s.last()) {
                    assert(d.push(s.last())[j] == x);
                }
            } else if d.len() > 0 && d.last() == s.last() {
                assert(d[d.len() - 1] == x);
            } else {
                assert(d.push(s.last())[d.len() as int] == x);
            }
        }
        if dedup_adjacent(s).contains(x) {
            let j = choose|j: int| 0 <= j < dedup_adjacent(s).len() && dedup_adjacent(s)[j] == x;
            if j < d.len() {
                assert(d[j] == x);
                let i = choose|i: int| 0 <= i < t.len() && t[i] == x;
                assert(s[i] == x);
            } else {
                assert(s[s.len() - 1] == x);
            }
        }
    }
}

proof fn lemma_dedup_strictly_sorted(s: Seq<Seq<char>>)
    requires
        sorted_by(s, text_order()),
    ensures
        forall|i: int, j: int|
            0 <= i < j < dedup_adjacent(s).len() ==> text_lt(
                #[trigger] dedup_adjacent(s)[i],
                #[trigger] dedup_adjacent(s)[j],
            ),
    decreases s.len(),
{
    if s.len() > 0 {
        let t = s.drop_last();
        assert(sorted_by(t, text_order())) by {
            assert forall|i: int, j: int| 0 <= i < j < t.len() implies (text_order())(
                #[trigger] t[i],
                #[trigger] t[j],
            ) by {
                assert(t[i] == s[i] && t[j] == s[j]);
            }
        }
        lemma_dedup_strictly_sorted(t);
        let d = dedup_adjacent(t);
        let x = s.last();
        if t.len() > 0 && !(d.last() == x) {
            lemma_dedup_last(t);
            assert(text_le(s[s.len() - 2], s[s.len() - 1]));
            assert(text_lt(d.last(), x));
            let e = d.push(x);
            assert forall|i: int, j: int| 0 <= i < j < e.len() implies text_lt(
                #[trigger] e[i],
                #[trigger] e[j],
            ) by {
                if j < d.len() {
                    assert(e[i] == d[i] && e[j] == d[j]);
                } else if i < d.len() - 1 {
                    assert(text_lt(d[i], d[d.len() - 1]));
                    lemma_text_lt_transitive(d[i], d.last(), x);
                }
            }
        }
    }
}

/// The origins listed for the installed Flatpak apps are in order, each
/// once, and they are exactly the origins of the apps.
pub proof fn law_flatpak_origins_once_in_order(apps: Seq<FlatpakRecord>)
    ensures
        forall|i: int, j: int|
            0 <= i < j < dedup_adjacent(stable_sort(app_origins(apps), text_order())).len()
                ==> text_lt(
                #[trigger] dedup_adjacent(stable_sort(app_origins(apps), text_order()))[i],
                #[trigger] dedup_adjacent(stable_sort(app_origins(apps), text_order()))[j],
            ),
        forall|x: Seq<char>|
            dedup_adjacent(stable_sort(app_origins(apps), text_order())).contains(x)
                <==> app_origins(apps).contains(x),
{
    let o = app_origins(apps);
    lemma_text_order_total_preorder();
    lemma_stable_sort_sorted(o, text_order());
    lemma_dedup_strictly_sorted(stable_sort(o, text_order()));
    assert forall|x: Seq<char>|
        dedup_adjacent(stable_sort(o, text_order())).contains(x) <==> o.contains(x) by {
        lemma_dedup_contains(stable_sort(o, text_order()), x);
        lemma_stable_sort_contains(o, text_order(), x);
    }
}

} // verus!
