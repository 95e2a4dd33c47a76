use chapeau::cli::roots::{
    already_hidden, list_roots, may_be_redetected, root_add_detail, root_add_step, root_remove_detail,
    root_tag, RootAddStep,
};
use chapeau::cli::domains::{domain_listing, find_domain, has_membership, membership_kind, membership_kinds};
use chapeau::cli::listings::{count_of_type, list_repositories, list_services, observed_version};
use chapeau::discovery::ScanSummary;
use chapeau::model::domain::Domain;
use chapeau::model::graph::{NodeLabel, NodeType, SystemGraph};
use chapeau::model::relationship::{Relationship, RelationshipOrigin, RelationshipType};
use chapeau::model::observation::Observation;
use chapeau::model::resource::{Resource, ResourceType};
use chapeau::model::root::{Root, RootSource};
use chapeau::model::store::{DomainMember, Store};

fn empty_store() -> Store {
    Store {
        resources: vec![],
        relationships: vec![],
        domains: vec![],
        domain_members: vec![],
        roots: vec![],
        observations: vec![],
    }
}

fn add(s: &mut Store, t: ResourceType, native: &str, source: RootSource) -> Resource {
    let r = Resource::new(t, native.into(), None);
    s.resources.push(r.clone());
    s.roots.push(Root::new(r.id.clone(), source, None));
    r
}

#[test]
fn roots_listing_groups_by_type_and_hides_ignored() {
    let mut s = empty_store();
    add(&mut s, ResourceType::Package, "zsh", RootSource::Detected);
    let redis = add(&mut s, ResourceType::Package, "redis", RootSource::User);
    add(&mut s, ResourceType::Flatpak, "org.mozilla.firefox", RootSource::Detected);
    add(&mut s, ResourceType::Service, "sshd.service", RootSource::Adopted);
    add(&mut s, ResourceType::Repository, "fedora", RootSource::User);
    add(&mut s, ResourceType::Package, "dnf5", RootSource::Ignored);
    let mut obs = Observation::new(redis.id.clone());
    obs.installed = Some(false);
    s.observations.push(obs);

    let listing = list_roots(&s, false);
    assert_eq!(listing.hidden_count, 1);
    assert_eq!(listing.shown_count, 5);
    assert_eq!(listing.missing_count, 1);
    assert_eq!(listing.packages.len(), 2);
    assert_eq!(listing.flatpaks.len(), 1);
    assert_eq!(listing.services.len(), 1);
    assert_eq!(listing.other.len(), 1);
    assert_eq!(listing.missing.len(), 1);
    assert_eq!(listing.missing[0].resource.native_id, "redis");
    assert_eq!(root_tag(&listing.missing[0].source, listing.missing[0].missing), "[user, missing]");

    let all = list_roots(&s, true);
    assert_eq!(all.shown_count, 6);
    assert_eq!(all.packages.len(), 3);
}

#[test]
fn root_tag_formats_source() {
    assert_eq!(root_tag(&RootSource::Detected, false), "[detected]");
    assert_eq!(root_tag(&RootSource::User, true), "[user, missing]");
}

#[test]
fn scan_summary_text_sorts_types() {
    let mut summary = ScanSummary::default();
    summary.total_discovered = 12;
    summary.created = 3;
    summary.updated = 9;
    summary.observations = 12;
    summary.relationships_created = 40;
    summary.by_type = vec![("service".into(), 2), ("package".into(), 10)];
    assert_eq!(
        summary.to_string(),
        "Scan complete:\n  Discovered: 12 resources\n  Created:    3 new\n  Updated:    9 existing\n  Observations: 12\n  Relationships: 40\n  By type:\n    package: 10\n    service: 2\n"
    );
}

#[test]
fn scan_summary_text_without_types() {
    let summary = ScanSummary::default();
    assert_eq!(
        summary.to_string(),
        "Scan complete:\n  Discovered: 0 resources\n  Created:    0 new\n  Updated:    0 existing\n  Observations: 0\n  Relationships: 0\n"
    );
}

#[test]
fn node_labels_for_resources_and_domains() {
    let r = Resource::new(ResourceType::Flatpak, "org.gimp.GIMP".into(), Some("GIMP".into()));
    let n = NodeLabel::resource(&r);
    assert_eq!(n.id, r.id);
    assert_eq!(n.label, "GIMP");
    assert_eq!(n.node_type, NodeType::Resource(ResourceType::Flatpak));
    let d = NodeLabel::domain("d-1", "media");
    assert_eq!(d.label, "media");
    assert_eq!(d.node_type, NodeType::Domain);
}

#[test]
fn system_graph_from_store() {
    let mut s = empty_store();
    let app = Resource::new(ResourceType::Package, "app".into(), Some("App".into()));
    let lib = Resource::new(ResourceType::Package, "lib".into(), None);
    let svc = Resource::new(ResourceType::Service, "app.service".into(), None);
    s.resources = vec![app.clone(), lib.clone(), svc.clone()];
    let dev = Domain::new("dev".into(), None);
    s.domains.push(dev.clone());
    s.relationships = vec![
        Relationship::new(app.id.clone(), RelationshipType::DependsOn, lib.id.clone(), RelationshipOrigin::System),
        Relationship::new(svc.id.clone(), RelationshipType::ComesFrom, app.id.clone(), RelationshipOrigin::System),
        Relationship::new(app.id.clone(), RelationshipType::Uses, svc.id.clone(), RelationshipOrigin::User),
        Relationship::new(app.id.clone(), RelationshipType::DependsOn, "gone".into(), RelationshipOrigin::User),
    ];
    let g = SystemGraph::from_db(&s);
    assert_eq!(g.node_index(&app.id), Some(0));
    assert_eq!(g.node_index(&dev.id), Some(3));
    assert_eq!(g.node_index("gone"), None);
    assert_eq!(g.find_node("App"), Some(0));
    assert_eq!(g.find_node("dev"), Some(3));
    assert_eq!(g.find_node("nothing"), None);
    let out: Vec<(usize, RelationshipType, String)> =
        g.outgoing(0).into_iter().map(|(i, r, n)| (i, r, n.label)).collect();
    assert_eq!(
        out,
        vec![(2, RelationshipType::Uses, "app.service".to_string()), (1, RelationshipType::DependsOn, "lib".to_string())]
    );
    let inc: Vec<(usize, RelationshipType)> = g.incoming(0).into_iter().map(|(i, r, _)| (i, r)).collect();
    assert_eq!(inc, vec![(2, RelationshipType::ComesFrom)]);
    assert_eq!(g.neighbors(0).len(), 3);
    assert!(g.outgoing(17).is_empty());
}

#[test]
fn explicit_declaration_wins_over_detection() {
    assert_eq!(root_add_step(Some(RootSource::User)), RootAddStep::AlreadyExplicit);
    assert_eq!(root_add_step(Some(RootSource::Detected)), RootAddStep::Promote(RootSource::Detected));
    assert_eq!(root_add_step(Some(RootSource::Ignored)), RootAddStep::Promote(RootSource::Ignored));
    assert_eq!(root_add_step(None), RootAddStep::Create);
}

#[test]
fn root_history_details() {
    assert_eq!(
        root_add_detail("zsh", Some(RootSource::Detected)),
        "promoted 'zsh' from source=detected to explicit user root"
    );
    assert_eq!(root_add_detail("zsh", None), "marked 'zsh' as intentional root (source: user)");
    assert_eq!(
        root_remove_detail("zsh", RootSource::Adopted),
        "removed 'zsh' from intentional roots (source was adopted, resource preserved)"
    );
}

#[test]
fn only_detected_roots_come_back() {
    assert!(may_be_redetected(RootSource::Detected));
    assert!(!may_be_redetected(RootSource::User));
    assert!(!may_be_redetected(RootSource::Ignored));
    assert!(already_hidden(Some(RootSource::Ignored)));
    assert!(!already_hidden(Some(RootSource::User)));
    assert!(!already_hidden(None));
}

#[test]
fn root_source_of_finds_the_recorded_root() {
    let mut s = empty_store();
    let zsh = add(&mut s, ResourceType::Package, "zsh", RootSource::Detected);
    assert_eq!(s.root_source_of(&zsh.id), Some(RootSource::Detected));
    assert_eq!(s.root_source_of("no-such-id"), None);
}

#[test]
fn domains_are_found_by_name_and_list_their_members() {
    let mut s = empty_store();
    let redis = Resource::new(ResourceType::Package, "redis".into(), Some("Redis".into()));
    let nginx = Resource::new(ResourceType::Service, "nginx.service".into(), None);
    s.resources.push(redis.clone());
    s.resources.push(nginx.clone());
    let infra = Domain::new("infrastructure".into(), None);
    let web = Domain::new("web".into(), Some("Web stack".into()));
    s.domains.push(infra.clone());
    s.domains.push(web.clone());
    let members = [
        (&infra.id, redis.id.clone(), RelationshipType::Owns),
        (&web.id, nginx.id.clone(), RelationshipType::Uses),
        (&infra.id, redis.id.clone(), RelationshipType::Uses),
        (&infra.id, "missing-resource".to_string(), RelationshipType::Uses),
    ];
    for (domain_id, resource_id, kind) in members {
        s.domain_members.push(DomainMember {
            domain_id: domain_id.clone(),
            resource_id,
            relationship: kind,
        });
    }

    assert_eq!(find_domain(&s, "web").map(|d| d.id.clone()), Some(web.id.clone()));
    assert!(find_domain(&s, "nope").is_none());
    assert_eq!(membership_kind(true), RelationshipType::Owns);
    assert_eq!(membership_kind(false), RelationshipType::Uses);
    assert_eq!(
        membership_kinds(&s, &infra.id, &redis.id),
        vec![RelationshipType::Owns, RelationshipType::Uses]
    );
    assert!(membership_kinds(&s, &web.id, &redis.id).is_empty());
    assert!(has_membership(&s, &web.id, &nginx.id, RelationshipType::Uses));
    assert!(!has_membership(&s, &web.id, &nginx.id, RelationshipType::Owns));
    let listing: Vec<(String, RelationshipType)> = domain_listing(&s, &infra.id)
        .into_iter()
        .map(|(r, k)| (r.native_id, k))
        .collect();
    assert_eq!(
        listing,
        vec![("redis".to_string(), RelationshipType::Owns), ("redis".to_string(), RelationshipType::Uses)]
    );
}

#[test]
fn services_are_listed_by_state() {
    let mut s = empty_store();
    let mut add_service = |name: &str, active: Option<bool>, failed: Option<bool>, enabled: Option<bool>| {
        let r = Resource::new(ResourceType::Service, name.into(), None);
        s.resources.push(r.clone());
        let mut o = Observation::new(r.id.clone());
        o.active = active;
        o.failed = failed;
        o.enabled = enabled;
        s.observations.push(o);
    };
    add_service("sshd.service", Some(true), Some(false), Some(true));
    add_service("broken.service", Some(true), Some(true), None);
    add_service("idle.service", Some(false), None, None);
    s.resources.push(Resource::new(ResourceType::Service, "unobserved.service".into(), None));
    s.resources.push(Resource::new(ResourceType::Package, "zsh".into(), None));

    let l = list_services(&s);
    assert_eq!(l.active.len(), 1);
    assert_eq!(l.active[0].resource.native_id, "sshd.service");
    assert_eq!(l.active[0].enabled, Some(true));
    let failed: Vec<&str> = l.failed.iter().map(|r| r.native_id.as_str()).collect();
    assert_eq!(failed, vec!["broken.service"]);
    let inactive: Vec<&str> = l.inactive.iter().map(|r| r.native_id.as_str()).collect();
    assert_eq!(inactive, vec!["idle.service", "unobserved.service"]);
}

#[test]
fn repositories_count_what_comes_from_them() {
    let mut s = empty_store();
    let fedora = Resource::new(ResourceType::Repository, "fedora".into(), Some("Fedora 44".into()));
    let copr = Resource::new(ResourceType::Repository, "copr".into(), None);
    s.resources.push(fedora.clone());
    s.resources.push(copr.clone());
    for name in ["zsh", "vim"] {
        let p = Resource::new(ResourceType::Package, name.into(), None);
        s.resources.push(p.clone());
        s.relationships.push(Relationship::new(
            p.id.clone(),
            RelationshipType::ComesFrom,
            fedora.id.clone(),
            RelationshipOrigin::System,
        ));
    }
    let repos: Vec<(String, usize)> = list_repositories(&s).into_iter().map(|(r, n)| (r.native_id, n)).collect();
    assert_eq!(repos, vec![("fedora".to_string(), 2), ("copr".to_string(), 0)]);
    assert_eq!(count_of_type(&s, ResourceType::Package), 2);
    assert_eq!(count_of_type(&s, ResourceType::Flatpak), 0);
}

#[test]
fn observed_version_reads_the_observation() {
    let mut s = empty_store();
    let zsh = add(&mut s, ResourceType::Package, "zsh", RootSource::User);
    assert_eq!(observed_version(&s, &zsh.id), None);
    let mut o = Observation::new(zsh.id.clone());
    o.version = Some("5.9-1.fc44".into());
    s.observations.push(o);
    assert_eq!(observed_version(&s, &zsh.id).as_deref(), Some("5.9-1.fc44"));
}
