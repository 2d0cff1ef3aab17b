use inzone_buds_battery_tray::cli::args::{app_device_filter, parse_u16_hex, CliError, Command};
use inzone_buds_battery_tray::config::settings::Settings;
use inzone_buds_battery_tray::hid::hid_manager::HidDeviceFilter;

fn args(tokens: &[&str]) -> Vec<String> {
    tokens.iter().map(|t| t.to_string()).collect()
}

fn usage(result: Result<Command, CliError>) -> String {
    match result {
        Err(CliError::Usage(message)) => message,
        Err(CliError::SettingsRequired) => panic!("settings required"),
        Ok(command) => panic!("parsed {command:?}"),
    }
}

#[test]
fn no_arguments_runs_the_tray() {
    assert!(matches!(Command::parse_args(Vec::new(), None), Ok(Command::Tray)));
}

#[test]
fn list_hid_reads_hex_filters() {
    let parsed = Command::parse_args(
        args(&["list-hid", "--vendor", "054c", "--product", "0x0EC2", "--interface", "-1"]),
        None,
    );
    match parsed {
        Ok(Command::ListHid(a)) => {
            assert_eq!(a.filter.vendor_id, Some(0x054c));
            assert_eq!(a.filter.product_id, Some(0x0ec2));
            assert_eq!(a.filter.interface_number, Some(-1));
            assert_eq!(a.filter.usage_page, None);
        }
        other => panic!("unexpected {other:?}"),
    }
}

#[test]
fn inzone_flag_needs_the_settings() {
    let tokens = args(&["list-hid", "--inzone", "--usage", "ff04"]);
    assert!(matches!(
        Command::parse_args(tokens.clone(), None),
        Err(CliError::SettingsRequired)
    ));
    let configured = app_device_filter(&Settings::default());
    match Command::parse_args(tokens, Some(configured)) {
        Ok(Command::ListHid(a)) => {
            assert_eq!(a.filter.vendor_id, Some(0x054c));
            assert_eq!(a.filter.usage_page, Some(0xff03));
            assert_eq!(a.filter.usage, Some(0xff04));
        }
        other => panic!("unexpected {other:?}"),
    }
}

#[test]
fn dump_hid_defaults_and_options() {
    match Command::parse_args(args(&["dump-hid"]), None) {
        Ok(Command::DumpHid(a)) => {
            assert_eq!(a.count, 5);
            assert_eq!(a.timeout_ms, 1000);
            assert_eq!(a.output_dir, "dumps");
            assert_eq!(a.filter, HidDeviceFilter::default());
        }
        other => panic!("unexpected {other:?}"),
    }
    match Command::parse_args(
        args(&["dump-hid", "--vendor", "54c", "--count", "+3", "--output-dir", "out", "--timeout", "-1"]),
        None,
    ) {
        Ok(Command::DumpHid(a)) => {
            assert_eq!(a.count, 3);
            assert_eq!(a.timeout_ms, -1);
            assert_eq!(a.output_dir, "out");
            assert_eq!(a.filter.vendor_id, Some(0x054c));
        }
        other => panic!("unexpected {other:?}"),
    }
}

#[test]
fn capture_state_needs_a_label() {
    assert_eq!(
        usage(Command::parse_args(args(&["capture-state", "--count", "2"]), None)),
        "capture-state requires a label"
    );
    match Command::parse_args(args(&["capture-state", "--all-collections", "both out"]), None) {
        Ok(Command::CaptureState(a)) => {
            assert_eq!(a.label, "both out");
            assert_eq!(a.count, 1);
            assert_eq!(a.timeout_ms, 1000);
            assert!(a.all_collections);
        }
        other => panic!("unexpected {other:?}"),
    }
    assert_eq!(
        usage(Command::parse_args(args(&["capture-state", "a", "b"]), None)),
        "unknown option: b"
    );
}

#[test]
fn feature_series_defaults() {
    match Command::parse_args(args(&["capture-feature-series", "transition"]), None) {
        Ok(Command::CaptureFeatureSeries(a)) => {
            assert_eq!(a.label, "transition");
            assert_eq!(a.samples, 80);
            assert_eq!(a.interval_ms, 250);
            assert!(!a.all_collections);
        }
        other => panic!("unexpected {other:?}"),
    }
    assert_eq!(
        usage(Command::parse_args(args(&["capture-feature-series"]), None)),
        "capture-feature-series requires a label"
    );
}

#[test]
fn query_hub_battery_options() {
    match Command::parse_args(
        args(&["query-hub-battery", "--count", "3", "--timeout", "3000", "--interval-ms", "1000"]),
        None,
    ) {
        Ok(Command::QueryHubBattery(a)) => {
            assert_eq!(a.count, 3);
            assert_eq!(a.timeout_ms, 3000);
            assert_eq!(a.interval_ms, 1000);
        }
        other => panic!("unexpected {other:?}"),
    }
    assert_eq!(
        usage(Command::parse_args(args(&["query-hub-battery", "--count"]), None)),
        "missing value for --count"
    );
    assert_eq!(
        usage(Command::parse_args(args(&["query-hub-battery", "--timeout", "3s"]), None)),
        "invalid --timeout value"
    );
    assert_eq!(
        usage(Command::parse_args(args(&["query-hub-battery", "--interval-ms", "-1"]), None)),
        "invalid --interval-ms value"
    );
    assert_eq!(
        usage(Command::parse_args(args(&["query-hub-battery", "--verbose"]), None)),
        "unknown option: --verbose"
    );
}

#[test]
fn positional_commands_check_their_arity() {
    assert_eq!(
        usage(Command::parse_args(args(&["compare-dumps", "a.bin"]), None)),
        "compare-dumps expects exactly two file paths"
    );
    assert_eq!(
        usage(Command::parse_args(args(&["compare-state-dirs"]), None)),
        "compare-state-dirs expects exactly two directories"
    );
    assert_eq!(
        usage(Command::parse_args(args(&["analyze-feature-series", "a", "b"]), None)),
        "analyze-feature-series expects exactly one series directory"
    );
    match Command::parse_args(args(&["compare-dumps", "a.bin", "b.bin"]), None) {
        Ok(Command::CompareDumps(a)) => {
            assert_eq!(a.left, "a.bin");
            assert_eq!(a.right, "b.bin");
        }
        other => panic!("unexpected {other:?}"),
    }
}

#[test]
fn unknown_command_is_rejected() {
    assert_eq!(
        usage(Command::parse_args(args(&["frobnicate"]), None)),
        "unknown command: frobnicate"
    );
}

#[test]
fn hex_values_accept_prefix_and_case() {
    assert_eq!(parse_u16_hex(&"054C".to_string()).ok(), Some(0x054c));
    assert_eq!(parse_u16_hex(&"0x0ec2".to_string()).ok(), Some(0x0ec2));
    assert_eq!(parse_u16_hex(&"0XFF04".to_string()).ok(), Some(0xff04));
    assert_eq!(parse_u16_hex(&"+1".to_string()).ok(), Some(1));
    match parse_u16_hex(&"10000".to_string()) {
        Err(CliError::Usage(message)) => assert_eq!(message, "invalid hex value: 10000"),
        other => panic!("unexpected {other:?}"),
    }
    assert!(parse_u16_hex(&"0x".to_string()).is_err());
    assert!(parse_u16_hex(&"".to_string()).is_err());
    assert!(parse_u16_hex(&"-1".to_string()).is_err());
}

#[test]
fn counts_reject_overflow_and_signs() {
    assert_eq!(
        usage(Command::parse_args(
            args(&["capture-state", "x", "--count", "99999999999999999999999"]),
            None
        )),
        "invalid --count value"
    );
    assert_eq!(
        usage(Command::parse_args(args(&["capture-state", "x", "--count", "-1"]), None)),
        "invalid --count value"
    );
    match Command::parse_args(args(&["capture-state", "x", "--timeout", "-2147483648"]), None) {
        Ok(Command::CaptureState(a)) => assert_eq!(a.timeout_ms, i32::MIN),
        other => panic!("unexpected {other:?}"),
    }
    assert_eq!(
        usage(Command::parse_args(args(&["capture-state", "x", "--timeout", "2147483648"]), None)),
        "invalid --timeout value"
    );
}

#[test]
fn error_message_text() {
    assert_eq!(CliError::Usage("boom".to_string()).message(), "boom");
}
