use chapeau::model::observation::Observation;
use chapeau::model::provenance::Provenance;
use chapeau::model::relationship::{Relationship, RelationshipOrigin, RelationshipType};
use chapeau::model::resource::{Resource, ResourceType};
use chapeau::model::root::{Root, RootSource};
use chapeau::model::domain::Domain;

// --- ResourceType and Resource ---

#[test]
fn resource_type_as_str_roundtrip() {
    for rt in ResourceType::all() {
        let s = rt.as_str();
        let back = ResourceType::from_str(s).unwrap();
        assert_eq!(*rt, back);
    }
}

#[test]
fn resource_type_display() {
    assert_eq!(ResourceType::Package.to_string(), "package");
    assert_eq!(ResourceType::Flatpak.to_string(), "flatpak");
    assert_eq!(ResourceType::Service.to_string(), "service");
    assert_eq!(ResourceType::Repository.to_string(), "repository");
}

#[test]
fn resource_type_parse_ok() {
    assert_eq!(ResourceType::parse("package").unwrap(), ResourceType::Package);
    assert_eq!(ResourceType::parse("flatpak").unwrap(), ResourceType::Flatpak);
    assert_eq!(ResourceType::parse("service").unwrap(), ResourceType::Service);
    assert_eq!(ResourceType::parse("repository").unwrap(), ResourceType::Repository);
}

#[test]
fn resource_type_parse_err() {
    let err = ResourceType::parse("bogus").unwrap_err();
    assert!(err.to_string().contains("bogus"));
}

#[test]
fn resource_type_from_str_err() {
    assert!(ResourceType::from_str("unknown").is_err());
}

#[test]
fn resource_type_all_unique() {
    let all = ResourceType::all();
    let mut strs: Vec<&str> = all.iter().map(|rt| rt.as_str()).collect();
    strs.sort();
    strs.dedup();
    assert_eq!(strs.len(), all.len());
}

#[test]
fn resource_new_sets_timestamps() {
    let r = Resource::new(ResourceType::Service, "sshd.service".into(), None);
    assert!(!r.id.is_empty());
    assert_eq!(r.resource_type, ResourceType::Service);
    assert_eq!(r.native_id, "sshd.service");
    assert!(r.display_name.is_none());
    assert!(!r.created_at.is_empty());
    assert_eq!(r.created_at, r.updated_at);
}

#[test]
fn resource_validate_ok() {
    let r = Resource::new(ResourceType::Package, "bash".into(), Some("Bash".into()));
    assert!(r.validate().is_ok());
}

#[test]
fn resource_validate_empty_id() {
    let mut r = Resource::new(ResourceType::Package, "bash".into(), None);
    r.id = String::new();
    assert!(r.validate().is_err());
    assert!(r.validate().unwrap_err().to_string().contains("id"));
}

#[test]
fn resource_validate_empty_native_id() {
    let mut r = Resource::new(ResourceType::Package, "bash".into(), None);
    r.native_id = String::new();
    assert!(r.validate().is_err());
    assert!(r.validate().unwrap_err().to_string().contains("native_id"));
}

#[test]
fn resource_label_fallback() {
    let r = Resource::new(ResourceType::Package, "vim".into(), None);
    assert_eq!(r.label(), "vim");
}

#[test]
fn resource_label_display_name() {
    let r = Resource::new(ResourceType::Package, "vim".into(), Some("Vim Editor".into()));
    assert_eq!(r.label(), "Vim Editor");
}

#[test]
fn resource_equality() {
    let r1 = Resource::new(ResourceType::Package, "bash".into(), None);
    let mut r2 = r1.clone();
    r2.display_name = Some("Bash".into());
    // Same id means equal (display_name differs but id is the identity).
    assert_eq!(r1.id, r2.id);
}

#[test]
fn resource_ids_are_distinct_uuids() {
    let a = Resource::new(ResourceType::Package, "a".into(), None);
    let b = Resource::new(ResourceType::Package, "a".into(), None);
    assert_eq!(a.id.len(), 36);
    assert_ne!(a.id, b.id);
}

// --- Domain ---

#[test]
fn domain_new_sets_timestamps() {
    let d = Domain::new("desktop".into(), Some("Desktop environment".into()));
    assert!(!d.id.is_empty());
    assert_eq!(d.name, "desktop");
    assert_eq!(d.description.as_deref(), Some("Desktop environment"));
    assert!(!d.created_at.is_empty());
    assert_eq!(d.created_at, d.updated_at);
}

#[test]
fn domain_validate_ok() {
    let d = Domain::new("development".into(), None);
    assert!(d.validate().is_ok());
}

#[test]
fn domain_validate_empty_id() {
    let mut d = Domain::new("test".into(), None);
    d.id = String::new();
    assert!(d.validate().is_err());
}

#[test]
fn domain_validate_empty_name() {
    let mut d = Domain::new("test".into(), None);
    d.name = String::new();
    assert!(d.validate().is_err());
}

#[test]
fn domain_validate_whitespace_name() {
    let d = Domain::new("my domain".into(), None);
    assert!(d.validate().is_err());
    assert!(d.validate().unwrap_err().to_string().contains("whitespace"));
}

#[test]
fn domain_validate_unicode_whitespace_name() {
    let d = Domain::new("my\u{2003}domain".into(), None);
    assert_eq!(
        d.validate().unwrap_err().to_string(),
        "validation error: domain name must not contain whitespace"
    );
}

#[test]
fn domain_display() {
    let d = Domain::new("media".into(), None);
    assert_eq!(d.to_string(), "media");
}

// --- Observation ---

#[test]
fn observation_new() {
    let o = Observation::new("res-1".into());
    assert_eq!(o.resource_id, "res-1");
    assert!(!o.observed_at.is_empty());
    assert!(o.installed.is_none());
    assert!(o.version.is_none());
}

#[test]
fn observation_validate_ok() {
    let o = Observation::new("res-1".into());
    assert!(o.validate().is_ok());
}

#[test]
fn observation_validate_empty_resource_id() {
    let mut o = Observation::new(String::new());
    o.resource_id = String::new();
    assert!(o.validate().is_err());
    assert!(o.validate().unwrap_err().to_string().contains("resource_id"));
}

#[test]
fn observation_validate_empty_observed_at() {
    let mut o = Observation::new("res-1".into());
    o.observed_at = String::new();
    assert!(o.validate().is_err());
    assert!(o.validate().unwrap_err().to_string().contains("observed_at"));
}

// --- Provenance ---

#[test]
fn provenance_new() {
    let p = Provenance::new("res-1".into());
    assert_eq!(p.resource_id, "res-1");
    assert!(p.installation_method.is_none());
    assert!(p.transaction_id.is_none());
}

#[test]
fn provenance_validate_ok() {
    let p = Provenance::new("res-1".into());
    assert!(p.validate().is_ok());
}

#[test]
fn provenance_validate_empty_resource_id() {
    let mut p = Provenance::new(String::new());
    p.resource_id = String::new();
    assert!(p.validate().is_err());
    assert!(p.validate().unwrap_err().to_string().contains("resource_id"));
}

// --- RelationshipType, RelationshipOrigin and Relationship ---

#[test]
fn relationship_type_as_str_roundtrip() {
    for rt in RelationshipType::all() {
        let s = rt.as_str();
        let back = RelationshipType::from_str(s).unwrap();
        assert_eq!(*rt, back);
    }
}

#[test]
fn relationship_type_display() {
    assert_eq!(RelationshipType::DependsOn.to_string(), "depends_on");
    assert_eq!(RelationshipType::Provides.to_string(), "provides");
    assert_eq!(RelationshipType::Owns.to_string(), "owns");
    assert_eq!(RelationshipType::Uses.to_string(), "uses");
    assert_eq!(RelationshipType::ComesFrom.to_string(), "comes_from");
}

#[test]
fn relationship_type_parse_ok() {
    assert_eq!(RelationshipType::parse("depends_on").unwrap(), RelationshipType::DependsOn);
    assert_eq!(RelationshipType::parse("comes_from").unwrap(), RelationshipType::ComesFrom);
}

#[test]
fn relationship_type_parse_err() {
    let err = RelationshipType::parse("bogus").unwrap_err();
    assert!(err.to_string().contains("bogus"));
}

#[test]
fn relationship_type_all_unique() {
    let all = RelationshipType::all();
    let mut strs: Vec<&str> = all.iter().map(|rt| rt.as_str()).collect();
    strs.sort();
    strs.dedup();
    assert_eq!(strs.len(), all.len());
}

#[test]
fn origin_as_str_roundtrip() {
    for o in RelationshipOrigin::all() {
        let s = o.as_str();
        let back = RelationshipOrigin::from_str(s).unwrap();
        assert_eq!(*o, back);
    }
}

#[test]
fn origin_display() {
    assert_eq!(RelationshipOrigin::System.to_string(), "system");
    assert_eq!(RelationshipOrigin::User.to_string(), "user");
    assert_eq!(RelationshipOrigin::Derived.to_string(), "derived");
}

#[test]
fn origin_parse_err() {
    assert!(RelationshipOrigin::parse("bogus").is_err());
}

#[test]
fn origin_all_unique() {
    let all = RelationshipOrigin::all();
    let mut strs: Vec<&str> = all.iter().map(|o| o.as_str()).collect();
    strs.sort();
    strs.dedup();
    assert_eq!(strs.len(), all.len());
}

#[test]
fn relationship_new_sets_timestamps() {
    let r = Relationship::new(
        "src".into(),
        RelationshipType::DependsOn,
        "tgt".into(),
        RelationshipOrigin::System,
    );
    assert!(!r.id.is_empty());
    assert_eq!(r.source_id, "src");
    assert_eq!(r.target_id, "tgt");
    assert_eq!(r.relationship_type, RelationshipType::DependsOn);
    assert_eq!(r.origin, RelationshipOrigin::System);
    assert!(!r.created_at.is_empty());
    assert_eq!(r.created_at, r.updated_at);
}

#[test]
fn relationship_validate_ok() {
    let r = Relationship::new("a".into(), RelationshipType::Uses, "b".into(), RelationshipOrigin::User);
    assert!(r.validate().is_ok());
}

#[test]
fn relationship_validate_empty_id() {
    let mut r =
        Relationship::new("a".into(), RelationshipType::Uses, "b".into(), RelationshipOrigin::User);
    r.id = String::new();
    assert!(r.validate().is_err());
}

#[test]
fn relationship_validate_empty_source() {
    let mut r =
        Relationship::new("a".into(), RelationshipType::Uses, "b".into(), RelationshipOrigin::User);
    r.source_id = String::new();
    assert!(r.validate().is_err());
    assert!(r.validate().unwrap_err().to_string().contains("source_id"));
}

#[test]
fn relationship_validate_empty_target() {
    let mut r =
        Relationship::new("a".into(), RelationshipType::Uses, "b".into(), RelationshipOrigin::User);
    r.target_id = String::new();
    assert!(r.validate().is_err());
    assert!(r.validate().unwrap_err().to_string().contains("target_id"));
}

#[test]
fn relationship_validate_self_referential() {
    let r = Relationship::new(
        "a".into(),
        RelationshipType::DependsOn,
        "a".into(),
        RelationshipOrigin::Derived,
    );
    assert!(r.validate().is_err());
    assert!(r.validate().unwrap_err().to_string().contains("differ"));
}

// --- RootSource and Root ---

#[test]
fn test_root_source_display() {
    assert_eq!(RootSource::User.to_string(), "user");
    assert_eq!(RootSource::Detected.to_string(), "detected");
    assert_eq!(RootSource::Adopted.to_string(), "adopted");
    assert_eq!(RootSource::Ignored.to_string(), "hidden");
}

#[test]
fn test_root_source_parse() {
    assert_eq!("user".parse::<RootSource>().unwrap(), RootSource::User);
    assert_eq!("detected".parse::<RootSource>().unwrap(), RootSource::Detected);
    assert_eq!("adopted".parse::<RootSource>().unwrap(), RootSource::Adopted);
    assert_eq!("hidden".parse::<RootSource>().unwrap(), RootSource::Ignored);
    assert!("invalid".parse::<RootSource>().is_err());
}

#[test]
fn root_source_parse_error_message() {
    let err = RootSource::from_str("invalid").unwrap_err();
    assert_eq!(err.to_string(), "validation error: invalid root source: invalid");
}

#[test]
fn test_root_new() {
    let root = Root::new(
        "res-123".to_string(),
        RootSource::User,
        Some("explicitly installed".to_string()),
    );
    assert_eq!(root.resource_id, "res-123");
    assert_eq!(root.source, RootSource::User);
    assert_eq!(root.reason, Some("explicitly installed".to_string()));
    assert!(!root.created_at.is_empty());
    assert_eq!(root.created_at, root.updated_at);
}
