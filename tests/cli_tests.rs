use kernel_janitor::cli::FlagParser;

#[test]
fn arg_parse() {
    let args = vec![
        "-e".to_string(),
        "--not-found".to_string(),
        "-t".to_string(),
        "--test".to_string(),
        "--other-flag".to_string(),
    ];
    let enabled_flag_0_name = "enabled_flag_0";
    let enabled_flag_1_name = "enabled_flag_1";
    let disabled_flag_0_name = "disabled_flag_0";
    let disabled_flag_1_name = "disabled_flag_1";

    let parse_results = FlagParser::new()
        .with_flag(enabled_flag_0_name, "-t", "--test", "enabled")
        .with_flag(enabled_flag_1_name, "-o", "--other-flag", "also enabled")
        .with_flag(disabled_flag_0_name, "-z", "--zoopies", "also disabled")
        .with_flag(disabled_flag_1_name, "-f", "--flag", "also disabled")
        .parse_args(args);

    println!("{}", parse_results.help_message());
    assert_eq!(parse_results.flag_enabled(enabled_flag_0_name), true);
    assert_eq!(parse_results.flag_enabled(enabled_flag_1_name), true);
    assert_eq!(parse_results.flag_enabled(disabled_flag_0_name), false);
    assert_eq!(parse_results.flag_enabled(disabled_flag_1_name), false);
}

#[test]
fn help_message_pads_long_forms() {
    let parser = FlagParser::new()
        .with_flag("test", "-t", "--test", "enabled")
        .with_flag("long", "-l", "--a-very-long-flag-name-indeed", "x");
    assert_eq!(
        parser.help_message(),
        "-t,--test                   enabled\n-l,--a-very-long-flag-name-indeedx"
    );
    let results = parser.parse_args(vec!["-h".to_string(), "--a-very-long-flag-name-indeed".to_string()]);
    assert!(results.flag_enabled("long"));
    assert!(!results.flag_enabled("test"));
    assert!(!results.flag_enabled("help"));
    assert!(results
        .help_message()
        .ends_with("\n-h,--help                   Print this message and all of the available flags"));
}

#[test]
fn no_flags_no_help_lines() {
    assert_eq!(FlagParser::new().help_message(), "");
}
