use chapeau::model::root_policy::{
    classify_package_role, classify_packages, source_base, DemotionReason, DependentsMap,
    PackageDecision, PackageFacts, PackageRole, RootEvidence,
};

fn facts(name: &str, summary: &str) -> PackageFacts {
    PackageFacts {
        name: name.to_string(),
        summary: Some(summary.to_string()),
        source_rpm: Some(format!("{}-1.0-1.fc44.src.rpm", name)),
        user_installed: true,
        has_files: true,
        has_executable: false,
        has_desktop_entry: false,
        has_app_bundle: false,
    }
}

fn with_exec(mut f: PackageFacts) -> PackageFacts {
    f.has_executable = true;
    f
}

fn with_desktop(mut f: PackageFacts) -> PackageFacts {
    f.has_desktop_entry = true;
    f
}

fn decisions(facts: Vec<PackageFacts>) -> Vec<PackageDecision> {
    classify_packages(&facts, &DependentsMap::new())
}

fn find<'a>(list: &'a [PackageDecision], name: &str) -> &'a PackageDecision {
    list.iter().find(|d| d.name == name).unwrap()
}

#[test]
fn source_base_strips_version_and_release() {
    assert_eq!(source_base("git-2.54.0-1.fc44.src.rpm"), "git");
    assert_eq!(source_base("postgresql18-18.3-2.fc44.src.rpm"), "postgresql18");
    assert_eq!(source_base("HandBrake-1.11.2-1.fc44.src.rpm"), "HandBrake");
    assert_eq!(source_base("qt6-qttools-6.11.1-1.fc44.src.rpm"), "qt6-qttools");
    assert_eq!(source_base("7zip-26.01-1.fc44.src.rpm"), "7zip");
}

#[test]
fn source_base_handles_hyphenated_names_without_version() {
    assert_eq!(source_base("my-tool.src.rpm"), "my-tool");
    assert_eq!(source_base(""), "");
}

#[test]
fn role_development_from_summary_and_suffix() {
    assert_eq!(
        classify_package_role("xz-devel", Some("Devel libraries & headers for liblzma")),
        PackageRole::Development
    );
    assert_eq!(
        classify_package_role("libstdc++-devel", Some("Header files and libraries for C++ development")),
        PackageRole::Development
    );
    assert_eq!(
        classify_package_role("vulkan-headers", Some("Vulkan Header files and API registry")),
        PackageRole::Development
    );
    assert_eq!(
        classify_package_role("libreoffice-math", Some("LibreOffice Equation Editor Application")),
        PackageRole::Application
    );
}

#[test]
fn role_library_and_runtime() {
    assert_eq!(
        classify_package_role("yyjson", Some("A high performance JSON library written in ANSI C")),
        PackageRole::Library
    );
    assert_eq!(
        classify_package_role("containerd.io", Some("An industry-standard container runtime")),
        PackageRole::Library
    );
    assert_eq!(
        classify_package_role("qt6-qttools-libs-help", Some("Qt6 Help runtime library")),
        PackageRole::Library
    );
}

#[test]
fn role_filesystem_firmware_kernel_macro_doc_asset_perl() {
    assert_eq!(
        classify_package_role("filesystem", Some("The basic directory layout for a Linux system")),
        PackageRole::Filesystem
    );
    assert_eq!(classify_package_role("vim-filesystem", Some("VIM filesystem layout")), PackageRole::Filesystem);
    assert_eq!(classify_package_role("nvidia-gpu-firmware", Some("Firmware for NVIDIA GPUs")), PackageRole::Firmware);
    assert_eq!(
        classify_package_role("kernel-modules", Some("kernel modules to match the core kernel")),
        PackageRole::Kernel
    );
    assert_eq!(
        classify_package_role("qt6-rpm-macros", Some("RPM macros for building Qt6 and KDE Frameworks 6 packages")),
        PackageRole::Macro
    );
    assert_eq!(
        classify_package_role("git-core-doc", Some("Documentation files for git-core")),
        PackageRole::Documentation
    );
    assert_eq!(
        classify_package_role("papirus-icon-theme", Some("Free and open source SVG icon theme")),
        PackageRole::Asset
    );
    assert_eq!(classify_package_role("perl-HTTP-Message", Some("HTTP style message")), PackageRole::PerlModule);
    assert_eq!(classify_package_role("dpkg-perl", Some("Dpkg perl modules")), PackageRole::PerlModule);
}

#[test]
fn role_system_component_from_summary() {
    assert_eq!(classify_package_role("dnf5", Some("Command-line package manager")), PackageRole::System);
    assert_eq!(
        classify_package_role("grubby", Some("Command line tool for updating bootloader configs")),
        PackageRole::System
    );
    assert_eq!(
        classify_package_role("snapper", Some("Tool for maintaining snapshots of btrfs subvolumes")),
        PackageRole::System
    );
    assert_eq!(
        classify_package_role("xorg-x11-drv-nvidia-cuda", Some("NVIDIA driver with CUDA support")),
        PackageRole::System
    );
    assert_eq!(classify_package_role("unixODBC", Some("A complete ODBC driver manager")), PackageRole::System);
    assert_eq!(classify_package_role("v4l-utils", Some("Utilities for video4linux devices")), PackageRole::System);
}

#[test]
fn system_components_are_not_roots() {
    let list = classify_packages(
        &[
            with_exec(facts("dnf5", "Command-line package manager")),
            with_exec(facts("snapper", "Tool for maintaining snapshots of btrfs subvolumes")),
            with_exec(facts("xorg-x11-drv-nvidia-cuda", "NVIDIA driver with CUDA support")),
            with_exec(facts("zsh", "Powerful interactive shell")),
        ],
        &DependentsMap::new(),
    );
    let find = |name: &str| list.iter().find(|d| d.name == name).unwrap();
    assert!(!find("dnf5").is_root);
    assert!(!find("snapper").is_root);
    assert!(!find("xorg-x11-drv-nvidia-cuda").is_root);
    assert!(find("zsh").is_root);
}

#[test]
fn role_application_for_user_facing_software() {
    for (name, summary) in [
        ("zsh", "Powerful interactive shell"),
        ("zoxide", "Smarter cd command for your terminal"),
        ("wireshark", "Network traffic analyzer"),
        ("tesseract", "Raw OCR Engine"),
        ("postgresql-server", "The programs needed to create and run a PostgreSQL server"),
        ("mpv", "Movie player playing most video formats and DVDs"),
        ("maven", "Java project management and project comprehension tool"),
        ("docker-ce", "The open-source application container engine"),
        ("code", "Code editing. Redefined."),
        ("cmake", "Cross-platform make system"),
        ("chezmoi", "Manage your dotfiles across multiple diverse machines"),
        ("brave-browser", "Brave Web Browser"),
        ("bat", "Cat(1) clone with wings"),
        ("btop", "Modern and colorful command line resource monitor"),
        ("HandBrake", "An open-source multiplatform video transcoder"),
        ("libreoffice-draw", "LibreOffice Drawing Application"),
        ("pandoc-cli", "Markup conversion between documentation formats"),
    ] {
        assert_eq!(
            classify_package_role(name, Some(summary)),
            PackageRole::Application,
            "{} should be an application",
            name
        );
    }
}

#[test]
fn user_installed_executable_is_a_root() {
    let list = decisions(vec![with_exec(facts("zsh", "Powerful interactive shell"))]);
    let zsh = find(&list, "zsh");
    assert!(zsh.is_root);
    assert!(zsh.evidence.contains(&RootEvidence::DnfUserInstalled));
    assert!(zsh.evidence.contains(&RootEvidence::Executable));
}

#[test]
fn desktop_application_is_a_root() {
    let list = decisions(vec![with_desktop(facts("brave-browser", "Brave Web Browser"))]);
    assert!(find(&list, "brave-browser").is_root);
}

#[test]
fn app_bundle_is_a_root() {
    let mut f = facts("PacketTracer", "Cisco PacketTracer 9.0 installation package");
    f.has_app_bundle = true;
    let list = decisions(vec![f]);
    let p = find(&list, "PacketTracer");
    assert!(p.is_root);
    assert!(p.evidence.contains(&RootEvidence::ApplicationBundle));
}

#[test]
fn metapackage_is_a_root() {
    let mut f = facts("mongodb-org", "MongoDB open source document-oriented database system (metapackage)");
    f.has_files = false;
    let list = decisions(vec![f]);
    let m = find(&list, "mongodb-org");
    assert!(m.is_root);
    assert!(m.evidence.contains(&RootEvidence::CanonicalProjectPackage));
}

#[test]
fn supporting_roles_never_become_roots_even_with_binaries() {
    let mut libicu = facts("libicu-devel", "Development files for International Components for Unicode");
    libicu.has_executable = true;
    let mut vulkan = facts("vulkan-headers", "Vulkan Header files and API registry");
    vulkan.has_executable = true;
    let mut zlib = facts("zlib-ng", "Zlib replacement with optimizations");
    zlib.has_files = false;

    let list = decisions(vec![
        libicu,
        vulkan,
        zlib,
        facts("filesystem", "The basic directory layout for a Linux system"),
        facts("kernel-modules", "kernel modules to match the core kernel"),
        facts(
            "postgresql-private-libs",
            "The shared libraries required only for this build of PostgreSQL server",
        ),
        facts("glibc", "The GNU libc libraries"),
        facts("qt6-qttools-libs-help", "Qt6 Help runtime library"),
        facts("xorg-x11-proto-devel", "X.Org X11 Protocol headers"),
    ]);

    for name in [
        "libicu-devel",
        "vulkan-headers",
        "zlib-ng",
        "filesystem",
        "kernel-modules",
        "postgresql-private-libs",
        "glibc",
        "qt6-qttools-libs-help",
        "xorg-x11-proto-devel",
    ] {
        let d = find(&list, name);
        assert!(!d.is_root, "{} must not be a root", name);
    }

    for name in [
        "libicu-devel",
        "vulkan-headers",
        "filesystem",
        "kernel-modules",
        "postgresql-private-libs",
        "glibc",
        "qt6-qttools-libs-help",
        "xorg-x11-proto-devel",
    ] {
        let d = find(&list, name);
        assert!(
            d.demotions.iter().any(|r| matches!(r, DemotionReason::SupportingRole(_))),
            "{} should be demoted by role",
            name
        );
    }
    assert!(find(&list, "zlib-ng").demotions.contains(&DemotionReason::NoUserFacingEntryPoint));
}

#[test]
fn non_user_installed_binary_is_not_a_root() {
    let mut dbus = with_exec(facts("dbus", "D-Bus message bus"));
    dbus.user_installed = false;
    let mut nss = with_exec(facts("nss", "Network Security Services"));
    nss.user_installed = false;

    let list = decisions(vec![dbus, nss]);
    for name in ["dbus", "nss"] {
        let d = find(&list, name);
        assert!(!d.is_root, "{} must not be a root", name);
        assert!(d.demotions.contains(&DemotionReason::NotUserInstalled));
    }
}

#[test]
fn application_without_entry_point_is_not_a_root() {
    let mut f = facts("some-config", "Some configuration package");
    f.has_files = true;
    let list = decisions(vec![f]);
    let d = find(&list, "some-config");
    assert!(!d.is_root);
    assert!(d.demotions.contains(&DemotionReason::SupportingRole(PackageRole::Support)) || !d.is_root);
}

#[test]
fn no_entry_point_no_evidence_is_not_a_root() {
    let mut f = facts("cdbs", "Common build system for Debian packages");
    f.has_files = true;
    let list = decisions(vec![f]);
    assert!(!find(&list, "cdbs").is_root);
}

#[test]
fn same_project_dependency_becomes_supporting() {
    let mut git = facts("git", "Fast Version Control System");
    git.has_files = true;
    let mut git_core = with_exec(facts("git-core", "Core package of git with minimal functionality"));
    git_core.source_rpm = Some("git-2.54.0-1.fc44.src.rpm".into());
    git.source_rpm = Some("git-2.54.0-1.fc44.src.rpm".into());

    let mut dependents = DependentsMap::new();
    dependents.insert("git-core".to_string(), vec!["git".to_string()]);

    let list = classify_packages(&[git, git_core], &dependents);
    let g = find(&list, "git");
    let gc = find(&list, "git-core");
    assert!(g.is_root, "git should represent the project");
    assert!(!gc.is_root, "git-core should be a component of git");
    assert!(gc.demotions.iter().any(|r| matches!(r, DemotionReason::ComponentOf(_))));
}

#[test]
fn shared_dependency_of_two_roots_is_not_a_root() {
    let a = with_exec(facts("root-a", "Application A"));
    let b = with_exec(facts("root-b", "Application B"));
    let mut lib = facts("shared-lib", "A shared library used by A and B");
    lib.source_rpm = None;

    let mut dependents = DependentsMap::new();
    dependents.insert("shared-lib".to_string(), vec!["root-a".to_string(), "root-b".to_string()]);

    let list = classify_packages(&[a, b, lib], &dependents);
    assert!(find(&list, "root-a").is_root);
    assert!(find(&list, "root-b").is_root);
    assert!(!find(&list, "shared-lib").is_root);
}

#[test]
fn genuine_tool_dependency_of_separate_project_stays_root() {
    let cmake = with_exec(facts("cmake", "Cross-platform make system"));
    let automoc = with_exec(facts("automoc", "Automatic moc for Qt 4"));
    let mut dependents = DependentsMap::new();
    dependents.insert("cmake".to_string(), vec!["automoc".to_string()]);

    let list = classify_packages(&[cmake, automoc], &dependents);
    assert!(find(&list, "cmake").is_root);
    assert!(find(&list, "automoc").is_root);
}

#[test]
fn toolchain_component_is_demoted() {
    let mut linguist = with_desktop(facts("qt6-linguist", "Qt6 Linguist Tools"));
    linguist.source_rpm = Some("qt6-qttools-6.11.1-1.fc44.src.rpm".into());
    let mut devel = facts("qt6-qttools-devel", "Development files for qt6-qttools");
    devel.source_rpm = Some("qt6-qttools-6.11.1-1.fc44.src.rpm".into());

    let mut dependents = DependentsMap::new();
    dependents.insert("qt6-linguist".to_string(), vec!["qt6-qttools-devel".to_string()]);

    let list = classify_packages(&[linguist, devel], &dependents);
    let l = find(&list, "qt6-linguist");
    assert!(!l.is_root);
    assert!(l.demotions.iter().any(|r| matches!(r, DemotionReason::ToolchainComponentOf(_))));
}

#[test]
fn project_representative_prefers_stronger_candidate() {
    let mut cli = with_exec(facts("HandBrake", "An open-source multiplatform video transcoder"));
    let mut gui = with_desktop(with_exec(facts(
        "HandBrake-gui",
        "An open-source multiplatform video transcoder (GUI)",
    )));
    cli.source_rpm = Some("HandBrake-1.11.2-1.fc44.src.rpm".into());
    gui.source_rpm = Some("HandBrake-1.11.2-1.fc44.src.rpm".into());

    let list = decisions(vec![cli, gui]);
    assert!(find(&list, "HandBrake-gui").is_root);
    assert!(!find(&list, "HandBrake").is_root);
    assert!(find(&list, "HandBrake").demotions.iter().any(|r| matches!(r, DemotionReason::CoveredBy(_))));
}

#[test]
fn decisions_are_independent_of_input_order() {
    let a = with_exec(facts("zsh", "Powerful interactive shell"));
    let b = with_exec(facts("zoxide", "Smarter cd command for your terminal"));
    let forward = decisions(vec![a.clone(), b.clone()]);
    let backward = decisions(vec![b, a]);
    let mut f: Vec<_> = forward.iter().map(|d| (d.name.clone(), d.is_root)).collect();
    let mut r: Vec<_> = backward.iter().map(|d| (d.name.clone(), d.is_root)).collect();
    f.sort();
    r.sort();
    assert_eq!(f, r);
}

#[test]
fn project_decisions_do_not_depend_on_input_order() {
    let mut cli = with_exec(facts("HandBrake", "An open-source multiplatform video transcoder"));
    let mut gui = with_desktop(with_exec(facts(
        "HandBrake-gui",
        "An open-source multiplatform video transcoder (GUI)",
    )));
    cli.source_rpm = Some("HandBrake-1.11.2-1.fc44.src.rpm".into());
    gui.source_rpm = Some("HandBrake-1.11.2-1.fc44.src.rpm".into());
    let forward = decisions(vec![cli.clone(), gui.clone()]);
    let backward = decisions(vec![gui, cli]);
    for name in ["HandBrake", "HandBrake-gui"] {
        let f = find(&forward, name);
        let b = find(&backward, name);
        assert_eq!(f.is_root, b.is_root);
        assert_eq!(f.score, b.score);
        assert_eq!(f.intrinsic_score, b.intrinsic_score);
    }
    assert!(find(&backward, "HandBrake-gui").is_root);
    assert!(!find(&backward, "HandBrake").is_root);
}

#[test]
fn covering_package_does_not_depend_on_input_order() {
    let a = with_exec(facts("a", "Powerful interactive shell"));
    let ab = with_desktop(with_exec(facts("a-b", "Powerful interactive shell")));
    let ac = with_desktop(with_exec(facts("a-c", "Powerful interactive shell")));
    let forward = decisions(vec![a.clone(), ac.clone(), ab.clone()]);
    let backward = decisions(vec![ab, ac, a]);
    for name in ["a", "a-b", "a-c"] {
        assert_eq!(find(&forward, name), find(&backward, name));
    }
    let demotions = &find(&forward, "a").demotions;
    assert!(demotions.contains(&DemotionReason::CoveredBy("a-b".to_string())));
    assert!(!demotions.contains(&DemotionReason::CoveredBy("a-c".to_string())));
}

#[test]
fn reason_string_lists_evidence() {
    let list = decisions(vec![with_desktop(with_exec(facts("wireshark", "Network traffic analyzer")))]);
    let reason = find(&list, "wireshark").reason_string();
    assert!(reason.contains("DNF user-installed package"));
    assert!(reason.contains("desktop application entry"));
    assert!(reason.contains("user-facing executable"));
}

#[test]
fn reason_string_without_evidence() {
    let mut f = facts("nss", "Network Security Services");
    f.user_installed = false;
    let list = decisions(vec![f]);
    assert_eq!(find(&list, "nss").reason_string(), "semantic root classification");
}

#[test]
fn demotion_descriptions() {
    assert_eq!(
        DemotionReason::ComponentOf("git".into()).describe(),
        "component of 'git'"
    );
    assert_eq!(
        DemotionReason::SupportingRole(PackageRole::Library).describe(),
        "package role: library or runtime"
    );
}
