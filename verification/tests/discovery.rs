use chapeau::cli::listings::package_report;
use chapeau::cli::scan::packages_by_origin;
use chapeau::backends::dnf::parse_repoquery_output;
use chapeau::discovery::packages::{InstallReason, RepoRecord, SystemSnapshot as PackageSnapshot};
use chapeau::discovery::repositories::RepositoryDiscovery;
use chapeau::discovery::SystemSnapshot;

#[test]
fn package_snapshot_counts_and_lookups() {
    let mut snap = PackageSnapshot::empty();
    assert_eq!(snap.package_count(), 0);
    snap.packages = parse_repoquery_output(
        "zsh\t5.9\tx86_64\tfedora\tUser\nglibc\t2.40\tx86_64\tfedora\tDependency\nvim\t9\tx86_64\tupdates\tGroup\n",
    );
    snap.repositories = vec![
        RepoRecord { id: "fedora".into(), name: "Fedora".into(), is_enabled: true },
        RepoRecord { id: "updates-testing".into(), name: "Testing".into(), is_enabled: false },
    ];
    assert_eq!(snap.package_count(), 3);
    assert_eq!(snap.user_installed_count(), 1);
    assert_eq!(snap.dependency_count(), 1);
    assert_eq!(snap.find_package("vim").unwrap().reason, InstallReason::Group);
    assert!(snap.find_package("emacs").is_none());
    let from_fedora = snap.packages_from_repo("fedora");
    assert_eq!(from_fedora.len(), 2);
    assert_eq!(from_fedora[0].name, "zsh");
    let enabled = snap.enabled_repos();
    assert_eq!(enabled.len(), 1);
    assert_eq!(enabled[0].id, "fedora");
}

#[test]
fn install_reason_text() {
    assert_eq!(InstallReason::from_dnf5("User"), InstallReason::User);
    assert_eq!(InstallReason::from_dnf5("user"), InstallReason::Unknown);
    assert_eq!(InstallReason::Dependency.as_str(), "Dependency");
    assert_eq!(InstallReason::Group.to_string(), "Group");
}

#[test]
fn discovery_snapshot_counts() {
    let mut snap = SystemSnapshot::empty();
    assert_eq!(snap.total_count(), 0);
    snap.packages = parse_repoquery_output("a\t1\tx\tr\nb\t1\tx\tr\n");
    snap.repositories = vec![RepoRecord { id: "r".into(), name: "R".into(), is_enabled: true }];
    assert_eq!(snap.total_count(), 2);
    assert_eq!(snap.repository_count(), 1);
    assert_eq!(snap.flatpak_remote_count(), 0);
    assert!(!snap.snapshot_time.is_empty());
}

#[test]
fn repository_discovery_starts_empty() {
    let d = RepositoryDiscovery::new();
    assert!(d.repositories.is_empty());
}

#[test]
fn packages_by_origin_counts_largest_first() {
    let packages = parse_repoquery_output(
        "a\t1\tx\t@System\tUser\tfedora\nb\t1\tx\t@System\tUser\tupdates\nc\t1\tx\t@System\tUser\tupdates\nd\t1\tx\tcopr\ne\t1\tx\t@System\tUser\tfedora\nf\t1\tx\t@System\tUser\tupdates\n",
    );
    let counts = packages_by_origin(&packages);
    assert_eq!(
        counts,
        vec![("updates".to_string(), 3), ("fedora".to_string(), 2), ("copr".to_string(), 1)]
    );
    assert!(packages_by_origin(&vec![]).is_empty());
}

#[test]
fn package_report_counts_reasons_repositories_and_sorts_user_packages() {
    let mut snap = PackageSnapshot::empty();
    snap.packages = parse_repoquery_output(
        "zsh\t5.9\tx86_64\t@System\tUser\tfedora\nglibc\t2.40\tx86_64\t@System\tDependency\tfedora\nvim\t9\tx86_64\t@System\tGroup\tupdates\nbash\t5.3\tx86_64\t@System\tUser\tupdates\nawk\t1\tx86_64\t@System\tUser\tcopr\n",
    );
    snap.repositories = vec![
        RepoRecord { id: "fedora".into(), name: "Fedora".into(), is_enabled: true },
        RepoRecord { id: "updates-testing".into(), name: "Testing".into(), is_enabled: false },
        RepoRecord { id: "updates".into(), name: "Updates".into(), is_enabled: true },
    ];
    let report = package_report(&snap);
    assert_eq!(report.total, 5);
    assert_eq!(report.user, 3);
    assert_eq!(report.dependency, 1);
    assert_eq!(report.group, 1);
    assert_eq!(report.repositories, 3);
    let enabled: Vec<(&str, usize)> = report.enabled.iter().map(|u| (u.repo.id.as_str(), u.installed)).collect();
    assert_eq!(enabled, vec![("fedora", 2), ("updates", 2)]);
    let users: Vec<&str> = report.user_packages.iter().map(|&i| snap.packages[i].name.as_str()).collect();
    assert_eq!(users, vec!["awk", "bash", "zsh"]);
}
