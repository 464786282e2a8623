use kernel_janitor::kernel::{
    newest_with, Diagnostic, DirScans, InstalledItemKind, InstalledKernel, KernelSearch,
    SearchError,
};
use kernel_janitor::paths::filename_from_path;
use kernel_janitor::version::KernelVersion;

fn strings(v: &[&str]) -> Vec<String> {
    v.iter().map(|s| s.to_string()).collect()
}

fn search() -> KernelSearch {
    KernelSearch::new("./t/boot", "./t/src", "./t/modules")
}

fn one_kernel_install() -> Vec<&'static str> {
    vec![
        "./t/boot/vmlinuz-5.4.97-gentoo",
        "./t/boot/config-5.4.97-gentoo",
        "./t/boot/System.map-5.4.97-gentoo",
        "./t/boot/grub",
    ]
}

fn scans(install: &[&str], source: &[&str], module: &[&str]) -> DirScans {
    DirScans {
        install: Ok(strings(install)),
        source: Ok(strings(source)),
        module: Ok(strings(module)),
    }
}

#[test]
fn files_missing_true() {
    let temp_path = String::from("./temp");
    let version = KernelVersion::new(2, 6, 0, None, false);
    // Only one value is given
    let installed_kernel = InstalledKernel::new(version).with_config_path(temp_path.clone());
    assert_eq!(installed_kernel.files_missing(), true);
}

#[test]
fn files_missing_false() {
    let temp_path = String::from("./temp");
    let version = KernelVersion::new(2, 6, 0, None, false);
    let installed_kernel = InstalledKernel::new(version)
        .with_config_path(temp_path.clone())
        .with_modules_path(temp_path.clone())
        .with_system_map_path(temp_path.clone())
        .with_vmlinuz_path(temp_path.clone())
        .with_source_path(temp_path.clone());
    assert_eq!(installed_kernel.files_missing(), false);
}

#[test]
fn find_all_installed_items() {
    let s = scans(
        &one_kernel_install(),
        &["./t/src/linux-5.4.97-gentoo", "./t/src/README"],
        &["./t/modules/5.4.97-gentoo"],
    );
    let installed_kernels = search().execute(&s, &mut Vec::new());
    assert!(installed_kernels.is_ok());
    let installed_kernels = installed_kernels.unwrap();
    assert_eq!(installed_kernels.len(), 1);
    let ker = installed_kernels.get(0).unwrap();
    assert_eq!(ker.version, KernelVersion::new(5, 4, 97, None, false));
    assert_eq!(ker.files_missing(), false);
    assert_eq!(ker.vmlinuz_path.as_deref(), Some("./t/boot/vmlinuz-5.4.97-gentoo"));
    assert_eq!(ker.config_path.as_deref(), Some("./t/boot/config-5.4.97-gentoo"));
    assert_eq!(ker.system_map_path.as_deref(), Some("./t/boot/System.map-5.4.97-gentoo"));
    assert_eq!(ker.source_path.as_deref(), Some("./t/src/linux-5.4.97-gentoo"));
    assert_eq!(ker.modules_path.as_deref(), Some("./t/modules/5.4.97-gentoo"));
}

#[test]
fn old_kernels_use_new_module_and_src() {
    let mut install = one_kernel_install();
    install.push("./t/boot/vmlinuz-5.4.97-gentoo.old");
    install.push("./t/boot/config-5.4.97-gentoo.old");
    install.push("./t/boot/System.map-5.4.97-gentoo.old");
    let s = scans(
        &install,
        &["./t/src/linux-5.4.97-gentoo"],
        &["./t/modules/5.4.97-gentoo"],
    );
    let installed_kernels = search().execute(&s, &mut Vec::new());
    assert!(installed_kernels.is_ok());
    let installed_kernels = installed_kernels.unwrap();
    assert_eq!(
        installed_kernels.len(),
        2,
        "Only expected kernel versions 5.4.97 and 5.4.97.old"
    );
    assert!(installed_kernels[0].version.is_old());
    assert!(!installed_kernels[1].version.is_old());
    assert_eq!(installed_kernels[0].modules_path, installed_kernels[1].modules_path);
    assert_eq!(installed_kernels[0].source_path, installed_kernels[1].source_path);
    assert_eq!(
        installed_kernels[0].modules_path.as_deref(),
        Some("./t/modules/5.4.97-gentoo")
    );
    assert_eq!(
        installed_kernels[0].vmlinuz_path.as_deref(),
        Some("./t/boot/vmlinuz-5.4.97-gentoo.old")
    );
    assert!(!installed_kernels[0].files_missing());
}

#[test]
fn newly_downloaded_sources() {
    let s = scans(
        &one_kernel_install(),
        &["./t/src/linux-5.4.97-gentoo", "./t/src/linux-5.11.0-gentoo"],
        &["./t/modules/5.4.97-gentoo"],
    );
    let installed_kernels = search().execute(&s, &mut Vec::new()).unwrap();
    assert_eq!(installed_kernels.len(), 2, "Expected to find two kernels!");
    let newest = &installed_kernels[1];
    assert_eq!(newest.version.render(), "5.11.0");
    assert!(newest.files_missing());
    assert_eq!(newest.source_path.as_deref(), Some("./t/src/linux-5.11.0-gentoo"));
}

#[test]
fn old_install_without_counterpart_fails() {
    let s = scans(
        &[
            "./t/boot/vmlinuz-5.4.97-gentoo.old",
            "./t/boot/config-5.4.97-gentoo.old",
        ],
        &[],
        &[],
    );
    match search().execute(&s, &mut Vec::new()) {
        Err(SearchError::MissingCounterpart { old, current }) => {
            assert_eq!(old.render(), "5.4.97.old");
            assert_eq!(current.render(), "5.4.97");
        }
        _ => panic!("expected a missing counterpart"),
    }
}

#[test]
fn old_install_with_counterpart_missing_sources_fails() {
    let s = scans(
        &[
            "./t/boot/vmlinuz-5.4.97-gentoo.old",
            "./t/boot/vmlinuz-5.4.97-gentoo",
        ],
        &[],
        &["./t/modules/5.4.97-gentoo"],
    );
    match search().execute(&s, &mut Vec::new()) {
        Err(SearchError::MissingSources { old, current }) => {
            assert!(old.is_old());
            assert!(!current.is_old());
        }
        _ => panic!("expected missing sources"),
    }
    let s = scans(&["./t/boot/vmlinuz-5.4.97-gentoo.old", "./t/boot/vmlinuz-5.4.97-gentoo"], &[], &[]);
    assert!(matches!(
        search().execute(&s, &mut Vec::new()),
        Err(SearchError::MissingModules { .. })
    ));
}

#[test]
fn unreadable_directory_fails_the_search() {
    let s = DirScans {
        install: Ok(strings(&one_kernel_install())),
        source: Err("No such file or directory".to_string()),
        module: Err("Permission denied".to_string()),
    };
    match search().execute(&s, &mut Vec::new()) {
        Err(SearchError::ScanFailed { dir, message }) => {
            assert_eq!(dir, "./t/src");
            assert_eq!(message, "No such file or directory");
        }
        _ => panic!("expected a scan failure"),
    }
}

#[test]
fn unparsable_names_are_ignored_and_later_items_override() {
    let s = scans(
        &[
            "./t/boot/vmlinuz-garbage",
            "./t/boot/vmlinuz-5.4.97-gentoo",
            "./t/boot/vmlinuz-5.4.97-other",
            "./t/boot/config-5.4.97-gentoo",
        ],
        &["./t/src/linux"],
        &["./t/modules/not-a-version"],
    );
    let ks = search().execute(&s, &mut Vec::new()).unwrap();
    assert_eq!(ks.len(), 1);
    assert_eq!(ks[0].vmlinuz_path.as_deref(), Some("./t/boot/vmlinuz-5.4.97-other"));
    assert_eq!(ks[0].config_path.as_deref(), Some("./t/boot/config-5.4.97-gentoo"));
    assert!(ks[0].files_missing());
}

#[test]
fn empty_directories_give_no_kernels() {
    let ks = search().execute(&scans(&[], &[], &[]), &mut Vec::new()).unwrap();
    assert!(ks.is_empty());
}

#[test]
fn records_come_sorted_oldest_first() {
    let s = scans(
        &[
            "./t/boot/vmlinuz-5.11.0-rc1-gentoo",
            "./t/boot/vmlinuz-4.10.5-gentoo",
            "./t/boot/vmlinuz-2.6.0-gentoo",
        ],
        &[],
        &[],
    );
    let ks = search().execute(&s, &mut Vec::new()).unwrap();
    let rendered: Vec<String> = ks.iter().map(|k| k.version.render()).collect();
    assert_eq!(rendered, vec!["2.6.0", "4.10.5", "5.11.0-rc1"]);
}

fn complete_kernel(is_old: bool) -> InstalledKernel {
    InstalledKernel::new(KernelVersion::new(5, 4, 97, None, is_old))
        .with_modules_path("m".to_string())
        .with_source_path("s".to_string())
        .with_config_path("c".to_string())
        .with_vmlinuz_path("v".to_string())
        .with_system_map_path("y".to_string())
}

#[test]
fn removal_plan_of_current_install() {
    let plan = complete_kernel(false).removal_plan().ok().unwrap();
    let got: Vec<(String, bool)> = plan.into_iter().map(|r| (r.path, r.recursive)).collect();
    let want: Vec<(String, bool)> = vec![
        ("m".to_string(), true),
        ("s".to_string(), true),
        ("c".to_string(), false),
        ("v".to_string(), false),
        ("y".to_string(), false),
    ];
    assert_eq!(got, want);
}

#[test]
fn removal_plan_of_old_install_keeps_shared_trees() {
    let plan = complete_kernel(true).removal_plan().ok().unwrap();
    let got: Vec<String> = plan.into_iter().map(|r| r.path).collect();
    assert_eq!(got, vec!["c", "v", "y"]);
}

#[test]
fn removal_plan_of_incomplete_record_fails() {
    let k = InstalledKernel::new(KernelVersion::new(5, 4, 97, None, false))
        .with_config_path("c".to_string());
    match k.removal_plan() {
        Err(e) => assert_eq!(e.version, KernelVersion::new(5, 4, 97, None, false)),
        Ok(_) => panic!("an incomplete record cannot be removed"),
    }
}

#[test]
fn dir_search_test_filename_from_path() {
    let path = "/tmp/some/path/a-filename.txt";
    let filename = filename_from_path(path);
    assert!(filename.is_some());
    let filename = filename.unwrap();
    assert_eq!(filename.as_str(), "a-filename.txt");
}

#[test]
fn utils_test_filename_from_path() {
    let path = "/tmp/some/path/a-filename.txt";
    let filename = filename_from_path(path);
    assert!(filename.is_some());
    let filename = filename.unwrap();
    assert_eq!(filename.as_str(), "a-filename.txt");
}

#[test]
fn filename_of_paths_without_one() {
    assert_eq!(filename_from_path("/"), None);
    assert_eq!(filename_from_path("/boot/.."), None);
    assert_eq!(filename_from_path("/boot/linux/").as_deref(), Some("linux"));
}

#[test]
fn diagnostics_name_skipped_and_overwritten_files() {
    let s = scans(
        &[
            "./t/boot/vmlinuz-garbage",
            "./t/boot/vmlinuz-5.4.97-gentoo",
            "./t/boot/vmlinuz-5.4.97-other",
        ],
        &[],
        &["./t/modules/build"],
    );
    let mut notes = Vec::new();
    let ks = search().execute(&s, &mut notes).unwrap();
    assert_eq!(ks.len(), 1);
    assert_eq!(notes.len(), 3);
    match &notes[0] {
        Diagnostic::Unparsable { kind, path } => {
            assert_eq!(*kind, InstalledItemKind::KernelImage);
            assert_eq!(path, "./t/boot/vmlinuz-garbage");
        }
        other => panic!("unexpected {:?}", other),
    }
    match &notes[1] {
        Diagnostic::Unparsable { kind, path } => {
            assert_eq!(*kind, InstalledItemKind::ModuleDir);
            assert_eq!(path, "./t/modules/build");
        }
        other => panic!("unexpected {:?}", other),
    }
    match &notes[2] {
        Diagnostic::Overwritten {
            version,
            kind,
            old_path,
            new_path,
        } => {
            assert_eq!(version.render(), "5.4.97");
            assert_eq!(*kind, InstalledItemKind::KernelImage);
            assert_eq!(old_path, "./t/boot/vmlinuz-5.4.97-gentoo");
            assert_eq!(new_path, "./t/boot/vmlinuz-5.4.97-other");
        }
        other => panic!("unexpected {:?}", other),
    }
}

#[test]
fn failed_scan_adds_no_diagnostics() {
    let s = DirScans {
        install: Err("gone".to_string()),
        source: Ok(strings(&["./t/src/linux-garbage"])),
        module: Ok(Vec::new()),
    };
    let mut notes = Vec::new();
    assert!(search().execute(&s, &mut notes).is_err());
    assert!(notes.is_empty());
}

#[test]
fn oldest_failing_old_install_is_named() {
    let s = scans(
        &[
            "./t/boot/vmlinuz-5.11.0-gentoo.old",
            "./t/boot/vmlinuz-4.10.0-gentoo.old",
        ],
        &[],
        &[],
    );
    match search().execute(&s, &mut Vec::new()) {
        Err(SearchError::MissingCounterpart { old, current }) => {
            assert_eq!(old.render(), "4.10.0.old");
            assert_eq!(current.render(), "4.10.0");
        }
        _ => panic!("expected a missing counterpart"),
    }
}

#[test]
fn newest_record_with_a_path() {
    let s = scans(
        &one_kernel_install(),
        &["./t/src/linux-5.4.97-gentoo", "./t/src/linux-5.11.0-gentoo"],
        &["./t/modules/5.4.97-gentoo"],
    );
    let ks = search().execute(&s, &mut Vec::new()).unwrap();
    assert_eq!(newest_with(&ks, InstalledItemKind::Config), Some(0));
    assert_eq!(newest_with(&ks, InstalledItemKind::SourceDir), Some(1));
    assert_eq!(newest_with(&ks, InstalledItemKind::ModuleDir), Some(0));
    assert_eq!(newest_with(&Vec::new(), InstalledItemKind::Config), None);
}
