use kernel_janitor::conf::{strip_comment, Config, ConfigEntry, ConfigLineKind};

/// The text of kernel-janitor-example.conf.
const EXAMPLE_CONF: &str = "# Example configuration for kernel-janitor\n\
\n\
[Paths]\n\
InstallPath = /boot\n\
KernelModulesPath = /lib/modules\n\
KernelSourcePath = /usr/src\n\
\n\
[Cleanup]\n\
VersionsToKeep = 3 # keep the newest three\n\
RegenerateGrubConfig = false\n\
RebuildPortageModules = true\n";

#[test]
fn parse_entry() {
    let line = "entry_name      =      5";
    let entry = ConfigEntry::new(line);

    assert!(entry.is_some());
    let entry = entry.unwrap();
    assert_eq!(entry.name, "entry_name");
    assert_eq!(entry.value, "5");
}

#[test]
fn ignore_comment() {
    let line = "#Some Comment";
    let entry = ConfigEntry::new(line);

    assert!(entry.is_none());
}

#[test]
fn ignore_comment_after_value_0() {
    let line = "entry_name      =   value  # Some Comment";
    let entry = ConfigEntry::new(line);

    assert!(entry.is_some());
    let entry = entry.unwrap();
    assert_eq!(entry.name, "entry_name");
    assert_eq!(entry.value, "value");
}

#[test]
fn ignore_comment_after_value_1() {
    let line = "entry_name =   value2# Some Comment";
    let entry = ConfigEntry::new(line);

    assert!(entry.is_some());
    let entry = entry.unwrap();
    assert_eq!(entry.name, "entry_name");
    assert_eq!(entry.value, "value2");
}

#[test]
fn ignore_comment_after_value_2() {
    let line = "entry_name=   value2# Some Comment";
    let entry = ConfigEntry::new(line);

    assert!(entry.is_some());
    let entry = entry.unwrap();
    assert_eq!(entry.name, "entry_name");
    assert_eq!(entry.value, "value2");
}

#[test]
fn parse_conf_file() {
    let conf = Config::new(EXAMPLE_CONF);
    assert!(conf.is_ok());
    let conf = conf.unwrap();

    let path_value = conf.get_path("InstallPath");
    println!("{:?}", path_value);
    assert!(path_value.is_ok());
    assert_eq!(path_value.unwrap(), "/boot");

    let usize_value = conf.get_usize("VersionsToKeep");
    println!("{:?}", usize_value);
    assert!(usize_value.is_ok());
    assert_eq!(usize_value.unwrap(), 3 as usize);

    let bool_value = conf.get_bool("RegenerateGrubConfig");
    println!("{:?}", bool_value);
    assert!(bool_value.is_ok());
    assert_eq!(bool_value.unwrap(), false);
}

#[test]
fn invalid_parse() {
    let conf = Config::new(EXAMPLE_CONF);
    assert!(conf.is_ok());
    let conf = conf.unwrap();

    let versions_to_keep = conf.get_bool("VersionsToKeep");
    assert!(versions_to_keep.is_err());
}

#[test]
fn line_kinds() {
    assert!(matches!(ConfigLineKind::parse("   # note"), ConfigLineKind::Comment));
    assert!(matches!(ConfigLineKind::parse(""), ConfigLineKind::Comment));
    match ConfigLineKind::parse("  [[Paths]]  ") {
        ConfigLineKind::Section(s) => assert_eq!(s, "Paths"),
        other => panic!("expected a section, got {:?}", other),
    }
    match ConfigLineKind::parse("  just words ") {
        ConfigLineKind::ParseError(s) => assert_eq!(s, "just words"),
        other => panic!("expected an error, got {:?}", other),
    }
    match ConfigLineKind::parse("name =") {
        ConfigLineKind::ParseError(s) => assert_eq!(s, "name ="),
        other => panic!("expected an error, got {:?}", other),
    }
    match ConfigLineKind::parse("\t a = b = c ") {
        ConfigLineKind::Entry(e) => {
            assert_eq!(e.name, "a");
            assert_eq!(e.value, "b = c");
        }
        other => panic!("expected an entry, got {:?}", other),
    }
}

#[test]
fn strip_comment_cases() {
    assert_eq!(strip_comment("  # all comment"), "");
    assert_eq!(strip_comment("a = b # c"), "a = b ");
    assert_eq!(strip_comment("no comment"), "no comment");
}

#[test]
fn config_errors_and_overrides() {
    let lines: Vec<String> = vec!["a = 1", "a = +42", "flag = yes", "big = 99999999999999999999999"]
        .into_iter()
        .map(|l| l.to_string())
        .collect();
    let conf = Config::from_lines(&lines).unwrap();
    assert_eq!(conf.get_usize("a").unwrap(), 42);
    let e = conf.get_usize("missing").unwrap_err();
    assert_eq!(e.kind, "not_found");
    assert_eq!(e.message, "missing");
    let e = conf.get_bool("flag").unwrap_err();
    assert_eq!(e.kind, "invalid_bool");
    assert_eq!(e.message, "yes");
    let e = conf.get_usize("big").unwrap_err();
    assert_eq!(e.kind, "invalid_number");
    assert!(conf.get_path("nothing").is_err());

    let bad: Vec<String> = vec!["a = 1", "what is this", "also bad"]
        .into_iter()
        .map(|l| l.to_string())
        .collect();
    let e = Config::from_lines(&bad).err().unwrap();
    assert_eq!(e.kind, "unknown");
    assert_eq!(e.message, "what is this");
}

#[test]
fn config_from_text_with_crlf_endings() {
    let conf = Config::new("a = 1\r\n[S]\r\nb = two\r\n\r\nc = x").unwrap();
    assert_eq!(conf.entries.len(), 3);
    assert_eq!(conf.get_path("b").unwrap(), "two");
    assert_eq!(conf.get_path("c").unwrap(), "x");
    assert_eq!(conf.get_usize("a").unwrap(), 1);
    let e = Config::new("a = 1\nnot an entry\r\n").err().unwrap();
    assert_eq!(e.message, "not an entry");
    assert_eq!(Config::new("").unwrap().entries.len(), 0);
}
