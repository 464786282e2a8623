use kernel_janitor::version::KernelVersion;

const ERROR_MSG: &str = "Could not construct test KernelVersion!";

fn version(raw: &str) -> KernelVersion {
    KernelVersion::parse(raw).expect(ERROR_MSG)
}

#[test]
fn create_kernel_version() {
    let ver = KernelVersion::parse("linux-5.7.11-gentoo");
    assert!(ver.is_ok());

    let ver = ver.unwrap();
    assert_eq!(ver.version_triple(), (5, 7, 11));
    assert!(ver.release_candidate_num().is_none());
    assert_eq!(ver.is_old(), false);
}

#[test]
fn create_kernel_version_old() {
    let ver = KernelVersion::parse("linux-2.6.999-gentoo.old");
    assert!(ver.is_ok());

    let ver = ver.unwrap();
    assert_eq!(ver.version_triple(), (2, 6, 999));
    assert!(ver.release_candidate_num().is_none());
    assert_eq!(ver.is_old(), true);
}

#[test]
fn create_kernel_version_rc() {
    let ver = KernelVersion::parse("linux-2.6.999-rc1234-gentoo.old");
    assert!(ver.is_ok());

    let ver = ver.unwrap();
    assert_eq!(ver.version_triple(), (2, 6, 999));
    assert_eq!(ver.is_old(), true);
    assert!(ver.release_candidate_num().is_some());
    assert_eq!(ver.release_candidate_num().unwrap(), 1234);
}

#[test]
fn kernel_not_equal() {
    let newer = version("linux-4.10.5-gentoo");
    let older = version("linux-4.10.0-gentoo");
    assert_ne!(newer, older);
}

#[test]
fn kernel_equal() {
    let ver = version("linux-2.6.0-gentoo");
    assert_eq!(ver, ver);
}

#[test]
fn kernel_greater_than() {
    let newer = version("linux-4.10.5-gentoo");
    let older = version("linux-4.10.0-gentoo");
    assert!(newer > older);
}

#[test]
fn kernel_invalid() {
    let invalid = KernelVersion::parse("SoYouThink-ImAKernel");
    println!("invalid: {:?}", invalid);
    assert!(invalid.is_err());
}

#[test]
fn kernel_version_from_src() {
    let valid = KernelVersion::parse("linux-5.11.0-gentoo");
    assert!(valid.is_ok());
}

#[test]
fn kernel_version_from_module() {
    let valid = KernelVersion::parse("5.11.0-gentoo");
    assert!(valid.is_ok());
}

#[test]
fn kernel_version_from_config() {
    let valid = KernelVersion::parse("config-5.11.0-gentoo");
    assert!(valid.is_ok());
}

#[test]
fn kernel_version_from_system_map() {
    let valid = KernelVersion::parse("System.map-5.11.0-gentoo");
    assert!(valid.is_ok());
}

#[test]
fn kernel_version_from_vmlinuz() {
    let valid = KernelVersion::parse("vmlinuz-5.11.0-gentoo");
    assert!(valid.is_ok());
}

fn sorted_chain() -> Vec<KernelVersion> {
    vec![
        version("linux-2.6.0-gentoo"),
        version("linux-4.10.0-gentoo"),
        version("linux-4.10.0-rc1-gentoo.old"),
        version("linux-4.10.0-rc8-gentoo.old"),
        version("linux-4.10.0-rc8-gentoo"),
        version("linux-4.10.5-gentoo.old"),
        version("linux-4.10.5-gentoo"),
        version("linux-5.11.0-rc1-gentoo"),
    ]
}

#[test]
fn order_kernel_versions() {
    let mut versions: Vec<KernelVersion> = vec![
        version("linux-4.10.5-gentoo"),
        version("linux-4.10.0-gentoo"),
        version("linux-4.10.5-gentoo.old"),
        version("linux-5.11.0-rc1-gentoo"),
        version("linux-2.6.0-gentoo"),
        version("linux-4.10.0-rc8-gentoo"),
        version("linux-4.10.0-rc8-gentoo.old"),
        version("linux-4.10.0-rc1-gentoo.old"),
    ];

    // Ascending sort
    let sorted_versions = sorted_chain();

    assert_eq!(versions.len(), sorted_versions.len());

    versions.sort();
    println!("versions.sort():");
    for ver in versions.iter() {
        println!("    {:?}", ver);
    }
    println!("sorted_versions:");
    for ver in sorted_versions.iter() {
        println!("    {:?}", ver);
    }

    let zipped = versions.iter().zip(sorted_versions.iter());
    for vers in zipped {
        assert_eq!(vers.0, vers.1);
    }
}

#[test]
fn chain_is_strictly_ordered_by_less_than_and_partial_cmp() {
    let chain = sorted_chain();
    for i in 0..chain.len() {
        assert!(!chain[i].less_than(&chain[i]));
        for j in 0..chain.len() {
            assert_eq!(chain[i].less_than(&chain[j]), i < j);
            assert_eq!(chain[i].partial_cmp(&chain[j]), Some(i.cmp(&j)));
        }
    }
}

#[test]
fn parse_old_release_candidate_source_dir() {
    let v = version("linux-5.7.11-rc10-gentoo.old");
    assert_eq!(v, KernelVersion::new(5, 7, 11, Some(10), true));
}

#[test]
fn parse_module_dir_with_release_candidate() {
    let v = version("5.7.11-rc10-gentoo");
    assert_eq!(v, KernelVersion::new(5, 7, 11, Some(10), false));
}

#[test]
fn parse_failures() {
    assert!(KernelVersion::parse("").is_err());
    assert!(KernelVersion::parse("5.7.11").is_err());
    assert!(KernelVersion::parse("linux-5.7.11").is_err());
    assert!(KernelVersion::parse("linux-5.7-gentoo").is_err());
    assert!(KernelVersion::parse("linux-5.x.1-gentoo").is_err());
    assert!(KernelVersion::parse("linux-4294967296.0.0-gentoo").is_err());
    let e = KernelVersion::parse("SoYouThink-ImAKernel").unwrap_err();
    assert_eq!(e.path, "SoYouThink-ImAKernel");
    assert_eq!(
        e.message(),
        "Could not parse SoYouThink-ImAKernel as a kernel version"
    );
}

#[test]
fn parse_edge_values() {
    let v = version("linux-4294967295.0.7-gentoo");
    assert_eq!(v.version_triple(), (4294967295, 0, 7));
    let v = version("linux-5.4.97.3-gentoo");
    assert_eq!(v.version_triple(), (5, 4, 97));
    let v = version("linux-5.4.97-rcX-gentoo");
    assert_eq!(v.release_candidate_num(), None);
    let v = version("linux-5.7.11-12-gentoo");
    assert_eq!(v.release_candidate_num(), Some(12));
    let v = version("5.7.11-3-gentoo");
    assert_eq!(v.release_candidate_num(), Some(3));
    let v = version("linux-5.4.97-gentoo");
    assert_eq!(v.release_candidate_num(), None);
}

#[test]
fn render_is_canonical() {
    assert_eq!(version("linux-5.7.11-rc10-gentoo.old").render(), "5.7.11-rc10.old");
    assert_eq!(version("linux-05.007.11-gentoo").render(), "5.7.11");
    assert_eq!(version("5.4.0-gentoo").render(), "5.4.0");
    assert_eq!(version("linux-2.6.999-gentoo.old").render(), "2.6.999.old");
    assert_eq!(KernelVersion::new(0, 10, 4294967295, Some(0), false).render(), "0.10.4294967295-rc0");
}

#[test]
fn counterpart_and_eq_ignore_is_old() {
    let old = version("linux-5.4.97-gentoo.old");
    let cur = version("linux-5.4.97-gentoo");
    assert_ne!(old, cur);
    assert!(old.eq_ignore_is_old(&cur));
    assert_eq!(old.current_counterpart(), cur);
    assert!(old.less_than(&cur));
    assert!(!version("linux-5.4.97-rc1-gentoo").eq_ignore_is_old(&cur));
}
