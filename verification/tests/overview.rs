use chapeau::cli::overview::{build, sort_entries, RootEntry};
use chapeau::model::domain::Domain;
use chapeau::model::explanation::Explanation;
use chapeau::model::observation::Observation;
use chapeau::model::relationship::RelationshipType;
use chapeau::model::resource::{Resource, ResourceType};
use chapeau::model::root::{Root, RootSource};
use chapeau::model::store::{DomainMember, Store};

fn empty_store() -> Store {
    Store {
        resources: vec![],
        relationships: vec![],
        domains: vec![],
        domain_members: vec![],
        roots: vec![],
        observations: vec![],
    }
}

fn create(store: &mut Store, t: ResourceType, native_id: &str, display: Option<&str>) -> Resource {
    let r = Resource::new(t, native_id.to_string(), display.map(|d| d.to_string()));
    store.resources.push(r.clone());
    r
}

fn add_root(store: &mut Store, r: &Resource, source: RootSource) {
    store.roots.push(Root::new(r.id.clone(), source, None));
}

fn create_domain(store: &mut Store, name: &str) -> Domain {
    let d = Domain::new(name.to_string(), None);
    store.domains.push(d.clone());
    d
}

fn add_domain_resource(store: &mut Store, domain: &Domain, r: &Resource, kind: RelationshipType) {
    store.domain_members.push(DomainMember {
        domain_id: domain.id.clone(),
        resource_id: r.id.clone(),
        relationship: kind,
    });
}

#[test]
fn groups_by_type_without_domains() {
    let mut s = empty_store();
    let zsh = create(&mut s, ResourceType::Package, "zsh", Some("Zsh"));
    let code = create(&mut s, ResourceType::Package, "code", Some("VS Code"));
    let firefox = create(&mut s, ResourceType::Flatpak, "org.mozilla.firefox", Some("Firefox"));
    add_root(&mut s, &zsh, RootSource::Detected);
    add_root(&mut s, &code, RootSource::User);
    add_root(&mut s, &firefox, RootSource::Detected);

    let view = build(&s);

    assert!(!view.has_domains);
    assert_eq!(view.root_count, 3);
    assert_eq!(view.sections.len(), 2);
    assert_eq!(view.sections[0].title, "Packages");
    assert_eq!(view.sections[0].entries.len(), 2);
    assert_eq!(view.sections[1].title, "Flatpak");
    assert_eq!(view.sections[1].entries[0].label(), "Firefox (org.mozilla.firefox)");
}

#[test]
fn groups_by_domain_when_domains_exist() {
    let mut s = empty_store();
    let databases = create_domain(&mut s, "databases");
    let postgres = create(&mut s, ResourceType::Package, "postgresql-server", None);
    let zsh = create(&mut s, ResourceType::Package, "zsh", None);
    add_root(&mut s, &postgres, RootSource::User);
    add_root(&mut s, &zsh, RootSource::Detected);
    add_domain_resource(&mut s, &databases, &postgres, RelationshipType::Owns);

    let view = build(&s);

    assert!(view.has_domains);
    assert_eq!(view.sections.len(), 2);
    assert_eq!(view.sections[0].title, "databases");
    assert_eq!(view.sections[0].entries[0].resource.native_id, "postgresql-server");
    assert_eq!(view.sections[1].title, "Not in a domain");
    assert_eq!(view.sections[1].entries[0].resource.native_id, "zsh");
    assert!(view.sections[1].collapsed);
}

#[test]
fn missing_roots_are_tagged_and_counted() {
    let mut s = empty_store();
    let pkg = create(&mut s, ResourceType::Package, "redis", None);
    add_root(&mut s, &pkg, RootSource::User);
    let mut obs = Observation::new(pkg.id.clone());
    obs.installed = Some(false);
    obs.version = Some("7.2.5".to_string());
    s.observations.push(obs);

    let view = build(&s);
    assert_eq!(view.missing_count, 1);
    let entry = &view.sections[0].entries[0];
    assert!(entry.missing);
    assert_eq!(entry.tag(), "[user, missing]");
}

#[test]
fn root_in_multiple_domains_is_shown_in_each() {
    let mut s = empty_store();
    let dev = create_domain(&mut s, "development");
    let ai = create_domain(&mut s, "ai");
    let python = create(&mut s, ResourceType::Package, "python3", None);
    add_root(&mut s, &python, RootSource::Detected);
    add_domain_resource(&mut s, &dev, &python, RelationshipType::Owns);
    add_domain_resource(&mut s, &ai, &python, RelationshipType::Uses);

    let view = build(&s);
    let titles: Vec<&str> = view.sections.iter().map(|s| s.title.as_str()).collect();
    assert_eq!(titles, vec!["ai", "development"]);
    assert_eq!(view.sections[0].entries[0].resource.native_id, "python3");
    assert_eq!(view.sections[1].entries[0].resource.native_id, "python3");
}

#[test]
fn entries_sort_by_lowercase_label_stably() {
    let mk = |native: &str, display: Option<&str>| RootEntry {
        resource: Resource::new(ResourceType::Package, native.to_string(), display.map(|d| d.to_string())),
        source: RootSource::Detected,
        missing: false,
    };
    let entries = vec![mk("zsh", None), mk("b", Some("Bat")), mk("ant", None), mk("bat", None)];
    let sorted = sort_entries(entries);
    let labels: Vec<String> = sorted.iter().map(|e| e.label()).collect();
    assert_eq!(labels, vec!["ant", "bat", "Bat (b)", "zsh"]);
    let equal_keys = vec![mk("ZED", None), mk("zed", None), mk("Zed", None)];
    let labels: Vec<String> = sort_entries(equal_keys).iter().map(|e| e.label()).collect();
    assert_eq!(labels, vec!["ZED", "zed", "Zed"]);
}

#[test]
fn root_entry_label_and_tag() {
    let e = RootEntry {
        resource: Resource::new(ResourceType::Package, "vim".into(), Some("vim".into())),
        source: RootSource::Ignored,
        missing: false,
    };
    assert_eq!(e.label(), "vim");
    assert_eq!(e.tag(), "[hidden]");
}

#[test]
fn overview_counts_resources_and_skips_roots_without_resource() {
    let mut s = empty_store();
    let a = create(&mut s, ResourceType::Service, "sshd.service", None);
    create(&mut s, ResourceType::Repository, "fedora", None);
    add_root(&mut s, &a, RootSource::Adopted);
    s.roots.push(Root::new("no-such-id".into(), RootSource::User, None));
    let view = build(&s);
    assert_eq!(view.root_count, 1);
    assert_eq!(view.resource_count, 2);
    assert_eq!(view.relationship_count, 0);
    assert_eq!(view.sections.len(), 1);
    assert_eq!(view.sections[0].title, "Services");
}

#[test]
fn explanation_format_lists_sections() {
    let e = Explanation {
        resource: Resource::new(ResourceType::Package, "redis".into(), Some("Redis".into())),
        owned_by: vec!["infrastructure".into()],
        used_by: vec![],
        required_by: vec!["my-app".into(), "other".into()],
        depends_on: vec![],
        source: Some("fedora".into()),
        status: "installed".into(),
    };
    assert_eq!(
        e.format(),
        "Redis\nOwned by:\n  - infrastructure\nRequired by:\n  - my-app\n  - other\nSource: fedora\nStatus: installed\n"
    );
}
