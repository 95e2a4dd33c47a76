use chapeau::backends::dnf::{
    capability_base, extract_package_name, is_capability, is_excluded_requirement,
    is_executable_path, is_known_arch, parse_bulk_requires_output, parse_file_facts,
    parse_nevra_name, parse_repoquery_output, parse_requires_output, parse_whatdepends_output,
    service_unit_from_path, DnfCliBackend,
};
use chapeau::discovery::packages::{DependencyType, InstallReason};

#[test]
fn parse_nevra_simple() {
    assert_eq!(parse_nevra_name("bash-5.3.9-3.fc44.x86_64"), "bash");
}

#[test]
fn parse_nevra_with_epoch() {
    assert_eq!(parse_nevra_name("ImageMagick-1:7.1.2.13-2.fc44.x86_64"), "ImageMagick");
}

#[test]
fn parse_nevra_noarch() {
    assert_eq!(parse_nevra_name("filesystem-3.18-4.fc44.noarch"), "filesystem");
}

#[test]
fn parse_nevra_hyphenated_name() {
    assert_eq!(parse_nevra_name("NetworkManager-1:1.56.1-2.fc44.x86_64"), "NetworkManager");
}

#[test]
fn parse_nevra_lib64() {
    assert_eq!(parse_nevra_name("glibc-2.40-3.fc44.x86_64"), "glibc");
}

#[test]
fn parse_bulk_requires_simple() {
    let input = "bash\tfilesystem >= 3\nlibc.so.6()(64bit)\n---\ncurl\tlibc.so.6()(64bit)\n---\n";
    let pairs = parse_bulk_requires_output(input);
    assert_eq!(pairs.len(), 3);
    assert_eq!(pairs[0], ("bash".to_string(), "filesystem >= 3".to_string()));
    assert_eq!(pairs[1], ("bash".to_string(), "libc.so.6()(64bit)".to_string()));
    assert_eq!(pairs[2], ("curl".to_string(), "libc.so.6()(64bit)".to_string()));
}

#[test]
fn parse_bulk_requires_multi_line() {
    let input =
        "bash\t/usr/bin/sh\nconfig(bash) = 5.3.9-3.fc44\nfilesystem >= 3\nlibc.so.6()(64bit)\n---\n";
    let pairs = parse_bulk_requires_output(input);
    assert_eq!(pairs.len(), 4);
    assert_eq!(pairs[0].0, "bash");
    assert_eq!(pairs[0].1, "/usr/bin/sh");
    assert_eq!(pairs[1].1, "config(bash) = 5.3.9-3.fc44");
}

#[test]
fn parse_bulk_requires_empty() {
    let pairs = parse_bulk_requires_output("");
    assert!(pairs.is_empty());
}

#[test]
fn is_excluded_requirement_tests() {
    assert!(is_excluded_requirement("rpmlib(CompressedFileNames) <= 3.0.4-1"));
    assert!(is_excluded_requirement("rtld(GNU_HASH)"));
    assert!(is_excluded_requirement("config(bash) = 5.3.9-3.fc44"));
    assert!(is_excluded_requirement("/usr/bin/sh"));
    assert!(is_excluded_requirement("/bin/sh"));
    assert!(is_excluded_requirement("filesystem(unmerged-sbin-symlinks)"));
    assert!(!is_excluded_requirement("libc.so.6()(64bit)"));
    assert!(!is_excluded_requirement("glibc >= 2.42.9000-22"));
    assert!(!is_excluded_requirement("filesystem >= 3"));
}

#[test]
fn is_capability_tests() {
    assert!(is_capability("libc.so.6()(64bit)"));
    assert!(is_capability("libgcc_s.so.1()(64bit)"));
    assert!(is_capability("libtinfo.so.6()(64bit)"));
    assert!(!is_capability("glibc >= 2.42.9000-22"));
    assert!(!is_capability("filesystem >= 3"));
    assert!(!is_capability("bash"));
}

#[test]
fn capability_base_strips_version_suffixes() {
    assert_eq!(capability_base("libc.so.6(GLIBC_2.14)(64bit)"), "libc.so.6()(64bit)");
    assert_eq!(capability_base("libgcc_s.so.1(GCC_3.0)(64bit)"), "libgcc_s.so.1()(64bit)");
    assert_eq!(capability_base("libstdc++.so.6(CXXABI_1.3)(64bit)"), "libstdc++.so.6()(64bit)");
    assert_eq!(capability_base("libstdc++.so.6(GLIBCXX_3.4)(64bit)"), "libstdc++.so.6()(64bit)");
    assert_eq!(capability_base("libc.so.6()(64bit)"), "libc.so.6()(64bit)");
}

#[test]
fn extract_package_name_tests() {
    assert_eq!(extract_package_name("glibc >= 2.42.9000-22"), Some("glibc".to_string()));
    assert_eq!(extract_package_name("filesystem >= 3"), Some("filesystem".to_string()));
    assert_eq!(
        extract_package_name("python3-libs(x86-64) = 3.14.6-1.fc44"),
        Some("python3-libs".to_string())
    );
    assert_eq!(extract_package_name("bash"), Some("bash".to_string()));
    assert_eq!(extract_package_name("libc.so.6()(64bit)"), None);
    assert_eq!(extract_package_name("/usr/bin/sh"), None);
    assert_eq!(extract_package_name("config(bash) = 5.3.9-3.fc44"), None);
}

#[test]
fn known_arches_and_executable_paths() {
    assert!(is_known_arch("x86-64"));
    assert!(is_known_arch("noarch"));
    assert!(!is_known_arch("x86_64"));
    assert!(is_executable_path("/usr/bin/zsh"));
    assert!(is_executable_path("/sbin/ip"));
    assert!(!is_executable_path("/usr/lib/zsh"));
}

#[test]
fn service_unit_from_path_cases() {
    assert_eq!(
        service_unit_from_path("/usr/lib/systemd/system/postgresql.service"),
        Some("postgresql.service".to_string())
    );
    assert_eq!(
        service_unit_from_path("/usr/lib/systemd/user/pipewire.socket"),
        Some("pipewire.socket".to_string())
    );
    assert_eq!(service_unit_from_path("/usr/lib/systemd/system/multi-user.target.wants/x.service"), None);
    assert_eq!(service_unit_from_path("/usr/lib/systemd/system/foo.conf"), None);
    assert_eq!(service_unit_from_path("/usr/lib/systemd/system/"), None);
    assert_eq!(service_unit_from_path("/usr/bin/foo.service"), None);
}

#[test]
fn parse_repoquery_output_reads_all_fields() {
    let stdout = "zsh\t5.9-15.fc44\tx86_64\t@System\tUser\tfedora\t1714000000\tPowerful interactive shell\tzsh-5.9-15.fc44.src.rpm\r\n\
                  \n\
                  short\tline\n\
                  lib\t1.0-1\tnoarch\tupdates\n\
                  glibc\t2.40-3\tx86_64\t@System\tDependency\t\tnot-a-number\t\t\n";
    let packages = parse_repoquery_output(stdout);
    assert_eq!(packages.len(), 3);
    let zsh = &packages[0];
    assert_eq!(zsh.name, "zsh");
    assert_eq!(zsh.version, "5.9-15.fc44");
    assert_eq!(zsh.arch, "x86_64");
    assert_eq!(zsh.repository, "@System");
    assert_eq!(zsh.reason, InstallReason::User);
    assert_eq!(zsh.from_repo.as_deref(), Some("fedora"));
    assert_eq!(zsh.install_time, Some(1714000000));
    assert_eq!(zsh.summary.as_deref(), Some("Powerful interactive shell"));
    assert_eq!(zsh.source_rpm.as_deref(), Some("zsh-5.9-15.fc44.src.rpm"));
    assert!(!zsh.file_facts.has_files);
    assert!(zsh.service_units.is_empty());
    let lib = &packages[1];
    assert_eq!(lib.reason, InstallReason::Unknown);
    assert_eq!(lib.from_repo, None);
    assert_eq!(lib.install_time, None);
    let glibc = &packages[2];
    assert_eq!(glibc.reason, InstallReason::Dependency);
    assert_eq!(glibc.from_repo, None);
    assert_eq!(glibc.install_time, None);
    assert_eq!(glibc.summary, None);
    assert_eq!(glibc.source_rpm, None);
}

#[test]
fn parse_file_facts_reads_entry_points_and_units() {
    let stdout = "/usr/bin/orphan\n\
                  @@@zsh\n\
                  /usr/bin/zsh\n\
                  /usr/share/zsh/\n\
                  \n\
                  @@@brave-browser\n\
                  /usr/share/applications/brave-browser.desktop\n\
                  /opt/brave.com/brave/brave\n\
                  @@@postgresql-server\n\
                  /usr/lib/systemd/system/postgresql.service\n\
                  /usr/lib/systemd/system/postgresql@.service\n\
                  @@@empty\n";
    let scan = parse_file_facts(stdout);
    assert_eq!(scan.facts.len(), 4);
    let zsh = scan.facts_for("zsh").unwrap();
    assert!(zsh.has_files && zsh.has_executable && !zsh.has_desktop_entry && !zsh.has_app_bundle);
    let brave = scan.facts_for("brave-browser").unwrap();
    assert!(brave.has_desktop_entry && brave.has_app_bundle && !brave.has_executable);
    let empty = scan.facts_for("empty").unwrap();
    assert!(!empty.has_files);
    assert!(scan.facts_for("orphan").is_none());
    assert_eq!(
        scan.units_for("postgresql-server"),
        vec!["postgresql.service".to_string(), "postgresql@.service".to_string()]
    );
    assert!(scan.units_for("zsh").is_empty());
}

#[test]
fn parse_file_facts_later_listing_wins() {
    let scan = parse_file_facts("@@@a\n/usr/bin/a\n@@@a\n/usr/share/doc/a\n");
    let a = scan.facts_for("a").unwrap();
    assert!(a.has_files);
    assert!(!a.has_executable);
}

#[test]
fn discover_installed_merges_file_facts() {
    let backend = DnfCliBackend::new();
    let packages = backend.discover_installed(
        "zsh\t5.9\tx86_64\t@System\tUser\nredis\t7.2\tx86_64\t@System\tUser\n",
        "@@@redis\n/usr/bin/redis-server\n/usr/lib/systemd/system/redis.service\n",
    );
    assert_eq!(packages.len(), 2);
    assert!(!packages[0].file_facts.has_files);
    assert!(packages[0].service_units.is_empty());
    assert!(packages[1].file_facts.has_executable);
    assert_eq!(packages[1].service_units, vec!["redis.service".to_string()]);
}

#[test]
fn discover_all_dependencies_resolves_names_and_capabilities() {
    let backend = DnfCliBackend::new();
    let installed = parse_repoquery_output(
        "bash\t5\tx86_64\t@System\nglibc\t2\tx86_64\t@System\nfilesystem\t3\tnoarch\t@System\n",
    );
    let requires = "bash\tfilesystem >= 3\nlibc.so.6(GLIBC_2.14)(64bit)\n/usr/bin/sh\nmissing-pkg\nbash\n---\n";
    let provides = "glibc\tlibc.so.6()(64bit)\nglibc = 2\n---\nbash\t/bin/sh\n---\n";
    let deps = backend.discover_all_dependencies(&installed, requires, provides);
    assert_eq!(deps.len(), 2);
    assert_eq!(deps[0].source_package, "bash");
    assert_eq!(deps[0].target_package, "filesystem");
    assert_eq!(deps[1].source_package, "bash");
    assert_eq!(deps[1].target_package, "glibc");
}

#[test]
fn removal_argv_runs_dnf5_remove() {
    let backend = DnfCliBackend::new();
    assert_eq!(backend.removal_argv("redis"), vec!["dnf5", "remove", "-y", "redis"]);
}

#[test]
fn parse_requires_and_whatdepends_output() {
    let deps = parse_requires_output("bash", "  glibc >= 2\n\n  /bin/sh \n");
    assert_eq!(deps.len(), 2);
    assert_eq!(deps[0].source_package, "bash");
    assert_eq!(deps[0].dependency_string, "glibc >= 2");
    assert_eq!(deps[1].dependency_string, "/bin/sh");
    assert_eq!(deps[1].dep_type, DependencyType::Requires);
    let names = parse_whatdepends_output("bash-5.3.9-3.fc44.x86_64\n\n  zsh-5.9-1.fc44.x86_64\n");
    assert_eq!(names, vec!["bash".to_string(), "zsh".to_string()]);
}
