use chapeau::cli::show::{gather, metadata_str, recorded_state, service_state};
use chapeau::cli::dependencies::{dependencies_of, dependents_of};
use chapeau::cli::why::explain;
use chapeau::errors::ChapeauError;
use chapeau::model::domain::Domain;
use chapeau::model::observation::{MetaValue, Metadata, Observation};
use chapeau::model::relationship::{Relationship, RelationshipOrigin, RelationshipType};
use chapeau::model::resource::{Resource, ResourceType};
use chapeau::model::root::{Root, RootSource};
use chapeau::model::store::{DomainMember, Store};

fn empty_store() -> Store {
    Store {
        resources: vec![],
        relationships: vec![],
        domains: vec![],
        domain_members: vec![],
        roots: vec![],
        observations: vec![],
    }
}

fn create(store: &mut Store, t: ResourceType, native_id: &str) -> Resource {
    let r = Resource::new(t, native_id.to_string(), None);
    store.resources.push(r.clone());
    r
}

fn relate(store: &mut Store, source: &Resource, kind: RelationshipType, target: &Resource) {
    store.relationships.push(Relationship::new(
        source.id.clone(),
        kind,
        target.id.clone(),
        RelationshipOrigin::System,
    ));
}

#[test]
fn gather_collects_relationships_and_domains() {
    let mut s = empty_store();
    let postgres = create(&mut s, ResourceType::Package, "postgresql-server");
    let lib = create(&mut s, ResourceType::Package, "libpq");
    let repo = create(&mut s, ResourceType::Repository, "fedora");
    let databases = Domain::new("databases".into(), None);
    s.domains.push(databases.clone());

    let mut obs = Observation::new(postgres.id.clone());
    obs.installed = Some(true);
    obs.version = Some("16.4-1.fc44".into());
    obs.metadata = Some(Metadata {
        entries: vec![
            ("summary".into(), MetaValue::Text("PostgreSQL server".into())),
            ("reason".into(), MetaValue::Text("User".into())),
            ("role".into(), MetaValue::Text("application".into())),
        ],
    });
    s.observations.push(obs);
    relate(&mut s, &postgres, RelationshipType::DependsOn, &lib);
    relate(&mut s, &lib, RelationshipType::DependsOn, &postgres);
    relate(&mut s, &postgres, RelationshipType::ComesFrom, &repo);
    s.domain_members.push(DomainMember {
        domain_id: databases.id.clone(),
        resource_id: postgres.id.clone(),
        relationship: RelationshipType::Owns,
    });
    s.roots.push(Root::new(postgres.id.clone(), RootSource::Detected, Some("project package".into())));

    let detail = gather(&s, &postgres);

    assert_eq!(detail.dependencies, vec!["libpq"]);
    assert_eq!(detail.dependents, vec!["libpq"]);
    assert_eq!(detail.provenance, vec!["fedora"]);
    assert_eq!(detail.domains.len(), 1);
    assert_eq!(detail.domains[0].0.name, "databases");
    assert_eq!(detail.domains[0].1, RelationshipType::Owns);
    assert!(detail.root.is_some());
    assert_eq!(metadata_str(&detail, "summary").as_deref(), Some("PostgreSQL server"));
    assert_eq!(detail.package_count, None);
}

#[test]
fn gather_counts_repository_packages() {
    let mut s = empty_store();
    let repo = create(&mut s, ResourceType::Repository, "fedora");
    for name in ["zsh", "vim", "git"] {
        let pkg = create(&mut s, ResourceType::Package, name);
        relate(&mut s, &pkg, RelationshipType::ComesFrom, &repo);
    }
    let detail = gather(&s, &repo);
    assert_eq!(detail.package_count, Some(3));
}

#[test]
fn recorded_state_reports_missing() {
    let mut missing = Observation::new("res".into());
    missing.installed = Some(false);
    assert!(recorded_state(Some(&missing)).starts_with("missing"));
    assert_eq!(recorded_state(None), "not recorded");
}

#[test]
fn service_state_formats_fields() {
    let mut obs = Observation::new("svc".into());
    obs.active = Some(true);
    obs.enabled = Some(false);
    assert_eq!(service_state(Some(&obs)), "active, disabled");
    obs.failed = Some(true);
    assert_eq!(service_state(Some(&obs)), "active, disabled, failed");
    assert_eq!(service_state(None), "unknown");
}

#[test]
fn service_state_without_fields_is_unknown() {
    let obs = Observation::new("svc".into());
    assert_eq!(service_state(Some(&obs)), "unknown");
    let mut installed = Observation::new("pkg".into());
    installed.installed = Some(true);
    assert_eq!(recorded_state(Some(&installed)), "installed");
}

fn text(key: &str, value: &str) -> (String, MetaValue) {
    (key.to_string(), MetaValue::Text(value.to_string()))
}

#[test]
fn why_reports_intent_state_and_neighbours() {
    let mut s = empty_store();
    let postgres = create(&mut s, ResourceType::Package, "postgresql-server");
    let lib = create(&mut s, ResourceType::Package, "libpq");
    let ssl = create(&mut s, ResourceType::Package, "openssl-libs");
    let repo = create(&mut s, ResourceType::Repository, "fedora");
    let databases = Domain::new("databases".into(), None);
    s.domains.push(databases.clone());
    let mut obs = Observation::new(postgres.id.clone());
    obs.installed = Some(false);
    obs.metadata = Some(Metadata {
        entries: vec![
            text("summary", "PostgreSQL server"),
            text("role", "application"),
            text("reason", "User"),
            ("install_time".to_string(), MetaValue::Integer(1431648000)),
        ],
    });
    s.observations.push(obs);
    relate(&mut s, &postgres, RelationshipType::DependsOn, &lib);
    relate(&mut s, &postgres, RelationshipType::DependsOn, &ssl);
    relate(&mut s, &postgres, RelationshipType::ComesFrom, &repo);
    let unit = create(&mut s, ResourceType::Service, "postgresql.service");
    relate(&mut s, &unit, RelationshipType::ComesFrom, &postgres);
    s.relationships.push(Relationship::new(
        databases.id.clone(),
        RelationshipType::Owns,
        postgres.id.clone(),
        RelationshipOrigin::User,
    ));
    s.roots.push(Root::new(postgres.id.clone(), RootSource::Detected, Some("project package".into())));

    let w = explain(&s, "postgresql-server").unwrap();
    assert_eq!(w.label, "postgresql-server");
    assert_eq!(w.summary.as_deref(), Some("PostgreSQL server"));
    assert_eq!(w.role.as_deref(), Some("application"));
    assert_eq!(w.dnf_reason.as_deref(), Some("User"));
    assert_eq!(w.install_date.as_deref(), Some("2015-05-15"));
    assert!(w.missing);
    assert!(!w.is_supporting);
    assert_eq!(w.root.as_ref().map(|r| r.source), Some(RootSource::Detected));
    assert!(w.dependents.is_empty());
    let deps: Vec<&str> = w.dependencies.iter().map(|l| l.label.as_str()).collect();
    assert_eq!(deps, vec!["openssl-libs", "libpq"]);
    let origin: Vec<&str> = w.provenance.iter().map(|l| l.label.as_str()).collect();
    assert_eq!(origin, vec!["postgresql.service"]);
    assert_eq!(w.owned_by.len(), 1);
    assert_eq!(w.owned_by[0].label, "databases");
    assert!(w.owned_by[0].is_domain);
    assert!(w.required_by.is_empty());
    assert!(w.used_by.is_empty());
    assert!(w.provides.is_empty());
    assert!(w.uses.is_empty());
    assert!(w.in_domains.is_empty());
}

#[test]
fn why_explains_a_supporting_resource() {
    let mut s = empty_store();
    let postgres = create(&mut s, ResourceType::Package, "postgresql-server");
    let lib = create(&mut s, ResourceType::Package, "libpq");
    let mut obs = Observation::new(lib.id.clone());
    obs.installed = Some(true);
    obs.metadata = Some(Metadata { entries: vec![text("role", "library")] });
    s.observations.push(obs);
    relate(&mut s, &postgres, RelationshipType::DependsOn, &lib);

    let w = explain(&s, "libpq").unwrap();
    assert!(w.root.is_none());
    assert!(w.is_supporting);
    assert!(!w.missing);
    assert_eq!(w.dependents, vec!["postgresql-server"]);
    let required: Vec<&str> = w.required_by.iter().map(|l| l.label.as_str()).collect();
    assert_eq!(required, vec!["postgresql-server"]);
    assert_eq!(w.install_date, None);
}

#[test]
fn why_unknown_resource_is_not_found() {
    let s = empty_store();
    match explain(&s, "nope") {
        Err(ChapeauError::ResourceNotFound(name)) => assert_eq!(name, "nope"),
        _ => panic!("expected a not-found error"),
    }
}

#[test]
fn metadata_lookups_read_only_their_kind() {
    let m = Metadata {
        entries: vec![
            text("summary", "Shell"),
            ("install_time".to_string(), MetaValue::Integer(42)),
            ("pid".to_string(), MetaValue::Other("[1,2]".to_string())),
        ],
    };
    assert_eq!(m.text("summary").as_deref(), Some("Shell"));
    assert_eq!(m.text("install_time"), None);
    assert_eq!(m.integer("install_time"), Some(42));
    assert_eq!(m.integer("summary"), None);
    assert_eq!(m.text("pid"), None);
    assert_eq!(m.text("missing"), None);
}

#[test]
fn dependency_listings_follow_depends_on() {
    let mut s = empty_store();
    let app = create(&mut s, ResourceType::Package, "app");
    let lib = create(&mut s, ResourceType::Package, "lib");
    let tool = create(&mut s, ResourceType::Package, "tool");
    relate(&mut s, &app, RelationshipType::DependsOn, &lib);
    relate(&mut s, &tool, RelationshipType::DependsOn, &lib);
    relate(&mut s, &app, RelationshipType::Uses, &tool);
    s.relationships.push(Relationship::new(
        app.id.clone(),
        RelationshipType::DependsOn,
        "gone".to_string(),
        RelationshipOrigin::System,
    ));

    let deps = dependencies_of(&s, "app").unwrap();
    let names: Vec<&str> = deps.resources.iter().map(|r| r.native_id.as_str()).collect();
    assert_eq!(names, vec!["lib"]);
    assert_eq!(deps.total, 2);

    let users = dependents_of(&s, "lib").unwrap();
    let names: Vec<&str> = users.resources.iter().map(|r| r.native_id.as_str()).collect();
    assert_eq!(names, vec!["app", "tool"]);
    assert_eq!(users.total, 2);

    assert!(matches!(dependencies_of(&s, "nope"), Err(ChapeauError::ResourceNotFound(n)) if n == "nope"));
}
