use chapeau::backends::flatpak_backend::{discover_snapshot, sort_refs};
use chapeau::cli::listings::flatpak_origins;
use chapeau::discovery::flatpaks::{
    records_from_list_items, remotes_from_items, FlatpakListItem, FlatpakRecord, FlatpakRefKind,
    FlatpakRemote, FlatpakRemoteItem, FlatpakSnapshot,
};

fn record(id: &str, name: &str, version: &str, origin: &str, branch: &str, commit: &str, kind: FlatpakRefKind) -> FlatpakRecord {
    FlatpakRecord {
        id: id.into(),
        name: name.into(),
        version: version.into(),
        arch: "x86_64".into(),
        origin: origin.into(),
        branch: branch.into(),
        active_commit: commit.into(),
        runtime: None,
        installation: "system".into(),
        kind,
    }
}

#[test]
fn snapshot_empty() {
    let snap = FlatpakSnapshot::empty();
    assert_eq!(snap.total_count(), 0);
    assert!(snap.apps.is_empty());
    assert!(snap.runtimes.is_empty());
    assert!(snap.remotes.is_empty());
}

#[test]
fn snapshot_total_count() {
    let mut snap = FlatpakSnapshot::empty();
    snap.apps.push(record("org.mozilla.firefox", "Firefox", "138.0", "flathub", "stable", "abc", FlatpakRefKind::Application));
    snap.runtimes.push(record(
        "org.freedesktop.Platform",
        "Freedesktop Platform",
        "24.08",
        "flathub",
        "24.08",
        "def",
        FlatpakRefKind::Runtime,
    ));
    assert_eq!(snap.total_count(), 2);
}

#[test]
fn snapshot_find_app() {
    let mut snap = FlatpakSnapshot::empty();
    snap.apps.push(record("org.mozilla.firefox", "Firefox", "138.0", "flathub", "stable", "abc", FlatpakRefKind::Application));
    assert!(snap.find_app("org.mozilla.firefox").is_some());
    assert!(snap.find_app("org.nonexistent.App").is_none());
}

#[test]
fn snapshot_find_remote() {
    let mut snap = FlatpakSnapshot::empty();
    snap.remotes.push(FlatpakRemote {
        name: "flathub".into(),
        url: "https://dl.flathub.org/repo/".into(),
        title: "Flathub".into(),
        options: "system".into(),
    });
    assert!(snap.find_remote("flathub").is_some());
    assert!(snap.find_remote("nonexistent").is_none());
}

#[test]
fn snapshot_apps_from_origin() {
    let mut snap = FlatpakSnapshot::empty();
    snap.apps.push(record("org.mozilla.firefox", "Firefox", "138.0", "flathub", "stable", "abc", FlatpakRefKind::Application));
    snap.apps.push(record("org.fedora.GnomeGames", "GNOME Games", "46.0", "fedora", "stable", "def", FlatpakRefKind::Application));
    let flathub = snap.apps_from_origin("flathub");
    assert_eq!(flathub.len(), 1);
    assert_eq!(flathub[0].id, "org.mozilla.firefox");
    let fedora = snap.apps_from_origin("fedora");
    assert_eq!(fedora.len(), 1);
    assert_eq!(fedora[0].id, "org.fedora.GnomeGames");
}

#[test]
fn flatpak_ref_kind_display() {
    assert_eq!(FlatpakRefKind::Application.to_string(), "application");
    assert_eq!(FlatpakRefKind::Runtime.to_string(), "runtime");
}

fn item(id: Option<&str>) -> FlatpakListItem {
    FlatpakListItem {
        application_id: id.map(|s| s.to_string()),
        name: None,
        version: None,
        arch: Some("x86_64".into()),
        origin: Some("flathub".into()),
        branch: Some("stable".into()),
        active_commit: Some("abc123".into()),
        runtime: None,
        installation: None,
    }
}

#[test]
fn list_items_missing_optional_fields_become_empty() {
    let apps = records_from_list_items(vec![item(Some("org.example.App"))], FlatpakRefKind::Application);
    assert_eq!(apps.len(), 1);
    assert_eq!(apps[0].id, "org.example.App");
    assert_eq!(apps[0].name, "");
    assert_eq!(apps[0].version, "");
    assert!(apps[0].runtime.is_none());
    assert_eq!(apps[0].installation, "");
    assert_eq!(apps[0].branch, "stable");
    assert_eq!(apps[0].kind, FlatpakRefKind::Application);
}

#[test]
fn list_items_without_application_id_are_skipped() {
    let apps = records_from_list_items(vec![item(None), item(Some("b")), item(None)], FlatpakRefKind::Runtime);
    assert_eq!(apps.len(), 1);
    assert_eq!(apps[0].id, "b");
    assert_eq!(apps[0].kind, FlatpakRefKind::Runtime);
}

#[test]
fn remote_items_without_name_are_skipped() {
    let remotes = remotes_from_items(vec![
        FlatpakRemoteItem { name: Some("test-remote".into()), url: None, title: None, options: None },
        FlatpakRemoteItem { name: None, url: Some("https://x".into()), title: None, options: None },
    ]);
    assert_eq!(remotes.len(), 1);
    assert_eq!(remotes[0].name, "test-remote");
    assert_eq!(remotes[0].url, "");
    assert_eq!(remotes[0].title, "");
    assert_eq!(remotes[0].options, "");
}

#[test]
fn snapshot_refs_sorted_by_id_then_branch() {
    let apps = vec![
        record("org.b", "B", "1", "flathub", "stable", "1", FlatpakRefKind::Application),
        record("org.a", "A2", "1", "flathub", "stable", "2", FlatpakRefKind::Application),
        record("org.a", "A1", "1", "flathub", "beta", "3", FlatpakRefKind::Application),
        record("org.a", "A3", "1", "flathub", "stable", "4", FlatpakRefKind::Application),
        record("Org.z", "Z", "1", "flathub", "stable", "5", FlatpakRefKind::Application),
    ];
    let snap = discover_snapshot(apps, vec![], vec![]);
    let names: Vec<&str> = snap.apps.iter().map(|a| a.name.as_str()).collect();
    assert_eq!(names, vec!["Z", "A1", "A2", "A3", "B"]);
    assert!(!snap.snapshot_time.is_empty());
}

#[test]
fn sort_refs_matches_std_stable_sort() {
    let refs = vec![
        record("b", "1", "1", "o", "x", "1", FlatpakRefKind::Runtime),
        record("a", "2", "1", "o", "y", "1", FlatpakRefKind::Runtime),
        record("b", "3", "1", "o", "a", "1", FlatpakRefKind::Runtime),
        record("a", "4", "1", "o", "y", "1", FlatpakRefKind::Runtime),
        record("é", "5", "1", "o", "y", "1", FlatpakRefKind::Runtime),
    ];
    let mut expected = refs.clone();
    expected.sort_by(|a, b| a.id.cmp(&b.id).then(a.branch.cmp(&b.branch)));
    assert_eq!(sort_refs(refs), expected);
}

#[test]
fn flatpak_origins_are_sorted_and_listed_once() {
    let apps = vec![
        record("org.a", "A", "1", "flathub", "stable", "c1", FlatpakRefKind::Application),
        record("org.b", "B", "1", "fedora", "stable", "c2", FlatpakRefKind::Application),
        record("org.c", "C", "1", "flathub", "stable", "c3", FlatpakRefKind::Application),
    ];
    let snapshot = discover_snapshot(apps, vec![], vec![]);
    assert_eq!(flatpak_origins(&snapshot), vec!["fedora".to_string(), "flathub".to_string()]);
    assert!(flatpak_origins(&discover_snapshot(vec![], vec![], vec![])).is_empty());
}

#[test]
fn snapshot_find_runtime_looks_only_at_runtimes() {
    let mut snap = FlatpakSnapshot::empty();
    snap.apps.push(record("org.mozilla.firefox", "Firefox", "138.0", "flathub", "stable", "abc", FlatpakRefKind::Application));
    snap.runtimes.push(record("org.gnome.Platform", "GNOME", "48", "flathub", "48", "def", FlatpakRefKind::Runtime));
    assert_eq!(snap.find_runtime("org.gnome.Platform").map(|r| r.branch.as_str()), Some("48"));
    assert!(snap.find_runtime("org.mozilla.firefox").is_none());
}
