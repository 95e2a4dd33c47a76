use chapeau::model::analysis::{
    analyze_orphaned, analyze_unused, find_associated_services, find_orphaned, find_unused,
    get_dependent_names, get_owning_domain_names, has_dependencies, has_dependents,
    has_interactions, is_domain_owned, is_domain_used, run_analysis, AnalysisKind, AnalysisReason,
};
use chapeau::model::domain::Domain;
use chapeau::model::planner::{find_other_domain_dependencies, plan_removal};
use chapeau::model::relationship::{Relationship, RelationshipOrigin, RelationshipType};
use chapeau::model::resource::{Resource, ResourceType};
use chapeau::model::root::{Root, RootSource};
use chapeau::model::store::{DomainMember, Store};

fn empty_store() -> Store {
    Store {
        resources: vec![],
        relationships: vec![],
        domains: vec![],
        domain_members: vec![],
        roots: vec![],
        observations: vec![],
    }
}

fn create(store: &mut Store, t: ResourceType, native_id: &str, display: Option<&str>) -> Resource {
    let r = Resource::new(t, native_id.to_string(), display.map(|d| d.to_string()));
    store.resources.push(r.clone());
    r
}

fn relate(store: &mut Store, source: &Resource, kind: RelationshipType, target: &Resource, origin: RelationshipOrigin) {
    store
        .relationships
        .push(Relationship::new(source.id.clone(), kind, target.id.clone(), origin));
}

fn create_domain(store: &mut Store, name: &str, description: Option<&str>) -> Domain {
    let d = Domain::new(name.to_string(), description.map(|s| s.to_string()));
    store.domains.push(d.clone());
    d
}

fn add_member(store: &mut Store, domain: &Domain, resource: &Resource, kind: RelationshipType) {
    store.domain_members.push(DomainMember {
        domain_id: domain.id.clone(),
        resource_id: resource.id.clone(),
        relationship: kind,
    });
}

#[test]
fn test_no_dependents_detected() {
    let mut s = empty_store();
    let pkg = create(&mut s, ResourceType::Package, "redis", Some("Redis"));
    assert!(!has_dependents(&s, &pkg.id));
}

#[test]
fn test_dependents_detected() {
    let mut s = empty_store();
    let a = create(&mut s, ResourceType::Package, "app", Some("App"));
    let b = create(&mut s, ResourceType::Package, "redis", Some("Redis"));
    relate(&mut s, &a, RelationshipType::DependsOn, &b, RelationshipOrigin::System);
    assert!(has_dependents(&s, &b.id));
}

#[test]
fn test_domain_owned_detected() {
    let mut s = empty_store();
    let domain = create_domain(&mut s, "production", Some("Production env"));
    let pkg = create(&mut s, ResourceType::Package, "nginx", Some("Nginx"));
    add_member(&mut s, &domain, &pkg, RelationshipType::Owns);
    assert!(is_domain_owned(&s, &pkg.id));
    assert!(!is_domain_used(&s, &pkg.id));
}

#[test]
fn test_not_domain_owned() {
    let mut s = empty_store();
    let pkg = create(&mut s, ResourceType::Package, "redis", Some("Redis"));
    assert!(!is_domain_owned(&s, &pkg.id));
}

#[test]
fn test_analyze_orphaned_all_reasons() {
    let mut s = empty_store();
    let pkg = create(&mut s, ResourceType::Package, "redis", Some("Redis"));
    let analysis = analyze_orphaned(&s, &pkg);
    assert_eq!(analysis.reasons.len(), 3);
    assert!(analysis.reasons.contains(&AnalysisReason::NoDependents));
    assert!(analysis.reasons.contains(&AnalysisReason::NoDomainOwnership));
    assert!(analysis.reasons.contains(&AnalysisReason::NoDomainUsage));
    assert!(analysis.dependents.is_empty());
    assert!(analysis.owned_by_domains.is_empty());
    assert!(analysis.used_by_domains.is_empty());
    assert_eq!(analysis.resource, pkg);
}

#[test]
fn test_analyze_orphaned_not_orphaned_when_depended_on() {
    let mut s = empty_store();
    let a = create(&mut s, ResourceType::Package, "app", Some("App"));
    let b = create(&mut s, ResourceType::Package, "redis", Some("Redis"));
    relate(&mut s, &a, RelationshipType::DependsOn, &b, RelationshipOrigin::System);
    let analysis = analyze_orphaned(&s, &b);
    assert!(!analysis.reasons.contains(&AnalysisReason::NoDependents));
    assert_eq!(analysis.dependents, vec!["app"]);
}

#[test]
fn test_analyze_orphaned_not_orphaned_when_domain_owned() {
    let mut s = empty_store();
    let domain = create_domain(&mut s, "production", None);
    let pkg = create(&mut s, ResourceType::Package, "redis", Some("Redis"));
    add_member(&mut s, &domain, &pkg, RelationshipType::Owns);
    let analysis = analyze_orphaned(&s, &pkg);
    assert!(!analysis.reasons.contains(&AnalysisReason::NoDomainOwnership));
    assert_eq!(analysis.owned_by_domains, vec!["production"]);
}

#[test]
fn test_find_orphaned_excludes_repositories() {
    let mut s = empty_store();
    create(&mut s, ResourceType::Repository, "fedora", Some("Fedora"));
    create(&mut s, ResourceType::Package, "redis", Some("Redis"));
    let orphaned = find_orphaned(&s);
    assert_eq!(orphaned.len(), 1);
    assert_eq!(orphaned[0].resource.native_id, "redis");
}

#[test]
fn test_find_orphaned_empty_db() {
    let s = empty_store();
    assert!(find_orphaned(&s).is_empty());
}

#[test]
fn test_analyze_unused_all_five_reasons() {
    let mut s = empty_store();
    let pkg = create(&mut s, ResourceType::Package, "standalone", Some("Standalone"));
    let analysis = analyze_unused(&s, &pkg);
    assert_eq!(analysis.reasons.len(), 5);
}

#[test]
fn test_analyze_unused_not_unused_when_has_dependencies() {
    let mut s = empty_store();
    let a = create(&mut s, ResourceType::Package, "app", Some("App"));
    let b = create(&mut s, ResourceType::Package, "lib", Some("Lib"));
    relate(&mut s, &a, RelationshipType::DependsOn, &b, RelationshipOrigin::System);
    let analysis = analyze_unused(&s, &a);
    assert!(!analysis.reasons.contains(&AnalysisReason::NoDependencies));
    assert!(has_dependencies(&s, &a.id));
}

#[test]
fn test_analyze_unused_not_unused_when_has_interactions() {
    let mut s = empty_store();
    let pkg = create(&mut s, ResourceType::Package, "plugin", Some("Plugin"));
    let target = create(&mut s, ResourceType::Package, "core", Some("Core"));
    relate(&mut s, &pkg, RelationshipType::Provides, &target, RelationshipOrigin::Derived);
    let analysis = analyze_unused(&s, &pkg);
    assert!(!analysis.reasons.contains(&AnalysisReason::NoInteractions));
    assert!(has_interactions(&s, &pkg.id));
}

#[test]
fn test_find_unused_empty_db() {
    let s = empty_store();
    assert!(find_unused(&s).is_empty());
}

#[test]
fn find_unused_requires_all_five_reasons() {
    let mut s = empty_store();
    let a = create(&mut s, ResourceType::Package, "app", None);
    let b = create(&mut s, ResourceType::Package, "lib", None);
    let c = create(&mut s, ResourceType::Service, "lonely.service", None);
    create(&mut s, ResourceType::Repository, "fedora", None);
    relate(&mut s, &a, RelationshipType::DependsOn, &b, RelationshipOrigin::System);
    let unused = find_unused(&s);
    assert_eq!(unused.len(), 1);
    assert_eq!(unused[0].resource.id, c.id);
    let orphaned = find_orphaned(&s);
    assert_eq!(orphaned.len(), 3);
}

#[test]
fn test_affected_services_shown() {
    let mut s = empty_store();
    let svc = create(&mut s, ResourceType::Service, "redis.service", Some("Redis Service"));
    let pkg = create(&mut s, ResourceType::Package, "redis", Some("Redis"));
    relate(&mut s, &svc, RelationshipType::ComesFrom, &pkg, RelationshipOrigin::System);
    let analysis = analyze_orphaned(&s, &pkg);
    assert_eq!(analysis.affected_services, vec!["redis.service"]);
    assert_eq!(find_associated_services(&s, &pkg.id), vec!["redis.service"]);
}

#[test]
fn test_multiple_dependents_listed() {
    let mut s = empty_store();
    let lib = create(&mut s, ResourceType::Package, "openssl", Some("OpenSSL"));
    let app1 = create(&mut s, ResourceType::Package, "nginx", Some("Nginx"));
    let app2 = create(&mut s, ResourceType::Package, "curl", Some("curl"));
    let app3 = create(&mut s, ResourceType::Package, "git", Some("git"));
    for app in [&app1, &app2, &app3] {
        relate(&mut s, app, RelationshipType::DependsOn, &lib, RelationshipOrigin::System);
    }
    let analysis = analyze_orphaned(&s, &lib);
    assert_eq!(analysis.dependents.len(), 3);
    assert!(analysis.dependents.contains(&"curl".to_string()));
    assert!(analysis.dependents.contains(&"git".to_string()));
    assert!(analysis.dependents.contains(&"nginx".to_string()));
    assert_eq!(get_dependent_names(&s, &lib.id), vec!["curl", "git", "nginx"]);
}

#[test]
fn test_shared_resource_not_removable() {
    let mut s = empty_store();
    let python = create(&mut s, ResourceType::Package, "python", Some("Python"));
    let torch = create(&mut s, ResourceType::Package, "pytorch", Some("PyTorch"));
    let dev = create(&mut s, ResourceType::Package, "dev-tools", Some("Dev Tools"));
    let ai = create(&mut s, ResourceType::Package, "ai-framework", Some("AI Framework"));
    for consumer in [&torch, &dev, &ai] {
        relate(&mut s, consumer, RelationshipType::DependsOn, &python, RelationshipOrigin::System);
    }
    let analysis = analyze_orphaned(&s, &python);
    assert!(!analysis.reasons.contains(&AnalysisReason::NoDependents));
    assert_eq!(analysis.dependents.len(), 3);
    assert!(analysis.reasons.is_empty() || !analysis.reasons.contains(&AnalysisReason::NoDependents));
}

#[test]
fn domain_names_are_sorted() {
    let mut s = empty_store();
    let pkg = create(&mut s, ResourceType::Package, "python3", None);
    let dev = create_domain(&mut s, "development", None);
    let ai = create_domain(&mut s, "ai", None);
    let media = create_domain(&mut s, "media", None);
    add_member(&mut s, &dev, &pkg, RelationshipType::Owns);
    add_member(&mut s, &ai, &pkg, RelationshipType::Owns);
    add_member(&mut s, &media, &pkg, RelationshipType::Uses);
    assert_eq!(get_owning_domain_names(&s, &pkg.id), vec!["ai", "development"]);
    assert!(find_other_domain_dependencies(&s, &pkg.id).is_empty());
}

#[test]
fn analysis_reason_descriptions() {
    assert_eq!(AnalysisReason::NoDependents.description(), "No remaining dependents");
    assert_eq!(AnalysisReason::NoInteractions.description(), "Does not interact with other resources");
}

// --- removal plans ---

#[test]
fn test_plan_removal_simple_package() {
    let mut s = empty_store();
    let pkg = create(&mut s, ResourceType::Package, "redis", Some("Redis"));
    let plan = plan_removal(&s, "redis").unwrap();
    assert_eq!(plan.resource.id, pkg.id);
    assert_eq!(plan.packages_to_remove, vec!["redis"]);
    assert!(plan.packages_still_required.is_empty());
    assert!(plan.affected_services.is_empty());
    assert!(plan.warnings.is_empty());
}

#[test]
fn test_plan_removal_with_dependents() {
    let mut s = empty_store();
    let redis = create(&mut s, ResourceType::Package, "redis", Some("Redis"));
    let app = create(&mut s, ResourceType::Package, "my-app", Some("My App"));
    relate(&mut s, &app, RelationshipType::DependsOn, &redis, RelationshipOrigin::User);
    let plan = plan_removal(&s, "redis").unwrap();
    assert_eq!(plan.packages_to_remove, vec!["redis"]);
    assert!(plan.packages_still_required.contains(&"my-app".to_string()));
    assert!(!plan.warnings.is_empty());
    assert_eq!(plan.warnings, vec!["1 other package(s) depend on this resource"]);
}

#[test]
fn test_plan_removal_with_service() {
    let mut s = empty_store();
    let redis = create(&mut s, ResourceType::Package, "redis", Some("Redis"));
    let svc = create(&mut s, ResourceType::Service, "redis.service", Some("Redis Service"));
    relate(&mut s, &svc, RelationshipType::ComesFrom, &redis, RelationshipOrigin::User);
    let plan = plan_removal(&s, "redis").unwrap();
    assert!(plan.affected_services.contains(&"redis.service".to_string()));
    assert!(!plan.warnings.is_empty());
    assert_eq!(
        plan.warnings,
        vec!["This package has 1 associated service(s) that may stop working"]
    );
}

#[test]
fn test_plan_removal_with_domain_ownership() {
    let mut s = empty_store();
    let pkg = create(&mut s, ResourceType::Package, "redis", Some("Redis"));
    let domain = create_domain(&mut s, "infrastructure", Some("Infrastructure systems"));
    add_member(&mut s, &domain, &pkg, RelationshipType::Owns);
    let plan = plan_removal(&s, "redis").unwrap();
    assert!(plan.owned_by_domains.contains(&"infrastructure".to_string()));
    assert!(plan.other_domain_dependencies.is_empty());
    assert!(!plan.warnings.iter().any(|w| w.contains("other domain(s)")));
}

#[test]
fn test_plan_removal_not_found() {
    let s = empty_store();
    let result = plan_removal(&s, "nonexistent");
    assert!(result.is_err());
    assert_eq!(
        result.unwrap_err().to_string(),
        "resource not found: resource 'nonexistent' not found"
    );
}

#[test]
fn plan_format_lists_blocks() {
    let mut s = empty_store();
    let redis = create(&mut s, ResourceType::Package, "redis", Some("Redis"));
    let app = create(&mut s, ResourceType::Package, "my-app", None);
    relate(&mut s, &app, RelationshipType::DependsOn, &redis, RelationshipOrigin::User);
    let plan = plan_removal(&s, "redis").unwrap();
    assert_eq!(
        plan.format(),
        "Removal plan\n============\n\nResource:\n  Redis\n\nPackages to remove:\n  redis\n\nPackages still required elsewhere:\n  my-app\n\nWarnings:\n  1 other package(s) depend on this resource\n"
    );
}

#[test]
fn analyses_exclude_intentional_resources() {
    let mut s = empty_store();
    let zsh = create(&mut s, ResourceType::Package, "zsh", None);
    let stray = create(&mut s, ResourceType::Package, "stray", None);
    create(&mut s, ResourceType::Repository, "fedora", None);
    s.roots.push(Root::new(zsh.id.clone(), RootSource::Ignored, None));

    assert_eq!(find_orphaned(&s).len(), 2);
    let orphaned = run_analysis(&s, AnalysisKind::Orphaned);
    assert_eq!(orphaned.len(), 1);
    assert_eq!(orphaned[0].resource.id, stray.id);
    assert_eq!(orphaned[0].reasons.len(), 3);
    let unused = run_analysis(&s, AnalysisKind::Unused);
    assert_eq!(unused.len(), 1);
    assert_eq!(unused[0].resource.id, stray.id);
    assert_eq!(unused[0].reasons.len(), 5);
}
