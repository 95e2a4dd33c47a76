use chapeau::backends::systemd::{merge_units, ListedUnit, SystemdDbusBackend};
use chapeau::discovery::services::{ActiveState, SystemSnapshot, UnitFileState, UnitRecord, UnitType};

#[test]
fn unit_type_from_suffix() {
    assert_eq!(UnitType::from_suffix("service"), UnitType::Service);
    assert_eq!(UnitType::from_suffix("socket"), UnitType::Socket);
    assert_eq!(UnitType::from_suffix("timer"), UnitType::Timer);
    assert_eq!(UnitType::from_suffix("mount"), UnitType::Mount);
    assert_eq!(UnitType::from_suffix("slice"), UnitType::Slice);
    assert_eq!(UnitType::from_suffix("custom"), UnitType::Other("custom".into()));
}

#[test]
fn unit_type_as_str() {
    assert_eq!(UnitType::Service.as_str(), "service");
    assert_eq!(UnitType::Socket.as_str(), "socket");
    assert_eq!(UnitType::Target.as_str(), "target");
}

#[test]
fn unit_type_display() {
    assert_eq!(UnitType::Service.to_string(), "service");
    assert_eq!(UnitType::Timer.to_string(), "timer");
}

#[test]
fn active_state_from_dbus() {
    assert_eq!(ActiveState::from_dbus("active"), ActiveState::Active);
    assert_eq!(ActiveState::from_dbus("inactive"), ActiveState::Inactive);
    assert_eq!(ActiveState::from_dbus("failed"), ActiveState::Failed);
    assert_eq!(ActiveState::from_dbus("activating"), ActiveState::Activating);
    assert_eq!(ActiveState::from_dbus("custom"), ActiveState::Unknown("custom".into()));
}

#[test]
fn active_state_as_str() {
    assert_eq!(ActiveState::Active.as_str(), "active");
    assert_eq!(ActiveState::Inactive.as_str(), "inactive");
    assert_eq!(ActiveState::Failed.as_str(), "failed");
}

#[test]
fn unit_file_state_from_dbus() {
    assert_eq!(UnitFileState::from_dbus("enabled"), UnitFileState::Enabled);
    assert_eq!(UnitFileState::from_dbus("masked"), UnitFileState::Masked);
    assert_eq!(UnitFileState::from_dbus("disabled"), UnitFileState::Disabled);
    assert_eq!(UnitFileState::from_dbus("static"), UnitFileState::Static);
}

#[test]
fn unit_file_state_is_enabled() {
    assert!(UnitFileState::Enabled.is_enabled());
    assert!(UnitFileState::EnabledRuntime.is_enabled());
    assert!(UnitFileState::Linked.is_enabled());
    assert!(!UnitFileState::Disabled.is_enabled());
    assert!(!UnitFileState::Static.is_enabled());
    assert!(!UnitFileState::Masked.is_enabled());
}

#[test]
fn unit_file_state_is_masked() {
    assert!(UnitFileState::Masked.is_masked());
    assert!(UnitFileState::MaskedRuntime.is_masked());
    assert!(!UnitFileState::Enabled.is_masked());
    assert!(!UnitFileState::Disabled.is_masked());
}

#[test]
fn parse_unit_name_service() {
    let (name, utype) = UnitRecord::parse_unit_name("sshd.service");
    assert_eq!(name, "sshd");
    assert_eq!(utype, UnitType::Service);
}

#[test]
fn parse_unit_name_timer() {
    let (name, utype) = UnitRecord::parse_unit_name("dnf-automatic.timer");
    assert_eq!(name, "dnf-automatic");
    assert_eq!(utype, UnitType::Timer);
}

#[test]
fn parse_unit_name_socket() {
    let (name, utype) = UnitRecord::parse_unit_name("dbus.socket");
    assert_eq!(name, "dbus");
    assert_eq!(utype, UnitType::Socket);
}

#[test]
fn parse_unit_name_no_dot() {
    let (name, utype) = UnitRecord::parse_unit_name("basic");
    assert_eq!(name, "basic");
    assert_eq!(utype, UnitType::Other("unknown".into()));
}

#[test]
fn parse_unit_name_multi_dot() {
    let (name, utype) = UnitRecord::parse_unit_name("user@1000.service");
    assert_eq!(name, "user@1000");
    assert_eq!(utype, UnitType::Service);
}

#[test]
fn system_snapshot_empty() {
    let snap = SystemSnapshot::empty();
    assert_eq!(snap.unit_count(), 0);
    assert_eq!(snap.active_count(), 0);
    assert_eq!(snap.failed_count(), 0);
    assert_eq!(snap.enabled_count(), 0);
    assert_eq!(snap.masked_count(), 0);
    assert!(snap.services().is_empty());
    assert!(snap.failed_units().is_empty());
}

fn unit(
    name: &str,
    unit_type: UnitType,
    active_state: ActiveState,
    sub_state: &str,
    unit_file_state: Option<UnitFileState>,
    description: &str,
) -> UnitRecord {
    UnitRecord {
        name: name.into(),
        unit_type,
        active_state,
        sub_state: sub_state.into(),
        unit_file_state,
        description: description.into(),
        load_state: "loaded".into(),
    }
}

#[test]
fn system_snapshot_counts() {
    let snap = SystemSnapshot {
        units: vec![
            unit("sshd", UnitType::Service, ActiveState::Active, "running", Some(UnitFileState::Enabled), "OpenSSH server"),
            unit("nginx", UnitType::Service, ActiveState::Failed, "failed", Some(UnitFileState::Enabled), "Nginx web server"),
            unit("basic", UnitType::Target, ActiveState::Active, "active", None, "Basic system"),
        ],
        snapshot_time: "2025-01-01T00:00:00Z".into(),
    };
    assert_eq!(snap.unit_count(), 3);
    assert_eq!(snap.active_count(), 2);
    assert_eq!(snap.failed_count(), 1);
    assert_eq!(snap.enabled_count(), 2);
    assert_eq!(snap.masked_count(), 0);
    assert_eq!(snap.services().len(), 2);
    assert_eq!(snap.failed_units().len(), 1);
    assert!(snap.find_unit("sshd").is_some());
    assert!(snap.find_unit("nginx").is_some());
    assert!(snap.find_unit("nonexistent").is_none());
}

#[test]
fn system_snapshot_masked_units() {
    let snap = SystemSnapshot {
        units: vec![unit(
            "firewalld",
            UnitType::Service,
            ActiveState::Inactive,
            "dead",
            Some(UnitFileState::Masked),
            "Firewall daemon",
        )],
        snapshot_time: "2025-01-01T00:00:00Z".into(),
    };
    assert_eq!(snap.masked_count(), 1);
}

#[test]
fn system_snapshot_units_by_type() {
    let snap = SystemSnapshot {
        units: vec![
            unit("sshd", UnitType::Service, ActiveState::Active, "running", None, ""),
            unit("dbus", UnitType::Socket, ActiveState::Active, "running", None, ""),
        ],
        snapshot_time: "2025-01-01T00:00:00Z".into(),
    };
    assert_eq!(snap.units_by_type(&UnitType::Service).len(), 1);
    assert_eq!(snap.units_by_type(&UnitType::Socket).len(), 1);
    assert_eq!(snap.units_by_type(&UnitType::Timer).len(), 0);
}

fn listed(name: &str, active: &str, sub: &str) -> ListedUnit {
    ListedUnit {
        name: name.into(),
        description: format!("{} unit", name),
        load_state: "loaded".into(),
        active_state: active.into(),
        sub_state: sub.into(),
    }
}

#[test]
fn merge_units_adds_installed_but_not_loaded_units() {
    let units = merge_units(
        vec![listed("sshd.service", "active", "running")],
        vec![
            ("/usr/lib/systemd/system/sshd.service".into(), "enabled".into()),
            ("/usr/lib/systemd/system/postgresql.service".into(), "disabled".into()),
            ("/usr/lib/systemd/system/getty@.service".into(), "enabled".into()),
            ("/etc/systemd/system/dbus.service".into(), "alias".into()),
            ("/usr/lib/systemd/system/postgresql.service".into(), "enabled".into()),
        ],
        vec![],
    );
    assert_eq!(units.len(), 2);
    assert_eq!(units[0].name, "sshd");
    assert_eq!(units[0].unit_type, UnitType::Service);
    assert_eq!(units[0].active_state, ActiveState::Active);
    assert_eq!(units[0].unit_file_state, Some(UnitFileState::Enabled));
    assert_eq!(units[0].description, "sshd.service unit");
    assert_eq!(units[1].name, "postgresql");
    assert_eq!(units[1].active_state, ActiveState::Inactive);
    assert_eq!(units[1].sub_state, "dead");
    assert_eq!(units[1].load_state, "not-loaded");
    assert_eq!(units[1].description, "");
    assert_eq!(units[1].unit_file_state, Some(UnitFileState::Enabled));
}

#[test]
fn merge_units_falls_back_to_own_states_only_without_listing() {
    let units = merge_units(
        vec![listed("a.service", "inactive", "dead"), listed("b.socket", "active", "listening")],
        vec![],
        vec![Some("masked".into()), None],
    );
    assert_eq!(units.len(), 2);
    assert_eq!(units[0].unit_file_state, Some(UnitFileState::Masked));
    assert_eq!(units[1].unit_file_state, None);
    assert_eq!(units[1].unit_type, UnitType::Socket);

    let units = merge_units(
        vec![listed("a.service", "inactive", "dead")],
        vec![("/usr/lib/systemd/system/other.service".into(), "static".into())],
        vec![Some("masked".into())],
    );
    assert_eq!(units[0].unit_file_state, None);
    assert_eq!(units.len(), 2);
}

#[test]
fn discover_units_takes_a_snapshot() {
    let backend = SystemdDbusBackend::new();
    let snap = backend.discover_units(vec![listed("x.timer", "active", "waiting")], vec![], vec![]);
    assert_eq!(snap.unit_count(), 1);
    assert!(!snap.snapshot_time.is_empty());
}
