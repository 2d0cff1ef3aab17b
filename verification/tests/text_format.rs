use inzone_buds_battery_tray::cli::format::{
    describe_hub_response, format_offset_ranges, hex_list, format_optional_byte, format_optional_percent,
    format_range, parse_feature_series_file_name, sanitize_label, to_hex,
};

#[test]
fn hex_dump_is_space_separated_upper_case() {
    assert_eq!(to_hex(&[0x02, 0x0c, 0xff]), "02 0C FF");
    assert_eq!(to_hex(&[]), "");
    assert_eq!(to_hex(&[0x0a]), "0A");
}

#[test]
fn optional_byte_shows_hex_and_decimal() {
    assert_eq!(format_optional_byte(Some(0x64)), "0x64 (100)");
    assert_eq!(format_optional_byte(Some(0)), "0x00 (0)");
    assert_eq!(format_optional_byte(None), "-");
}

#[test]
fn optional_percent_shows_unavailable() {
    assert_eq!(format_optional_percent(Some(100)), "100%");
    assert_eq!(format_optional_percent(None), "unavailable");
}

#[test]
fn labels_are_sanitized() {
    assert_eq!(sanitize_label("both out"), "both_out");
    assert_eq!(sanitize_label("left-only_1"), "left-only_1");
    assert_eq!(sanitize_label("a/b\\c.é"), "a_b_c__");
    assert_eq!(sanitize_label(""), "state");
}

#[test]
fn ranges_are_written_as_runs() {
    assert_eq!(format_range(5, 5), "0x0005");
    assert_eq!(format_range(0x10, 0x13), "0x0010-0x0013");
    assert_eq!(format_range(0x12345, 0x12345), "0x12345");
    assert_eq!(format_offset_ranges(&[]), "-");
    assert_eq!(format_offset_ranges(&[7]), "0x0007");
    assert_eq!(
        format_offset_ranges(&[1, 2, 3, 7, 9, 10]),
        "0x0001-0x0003, 0x0007, 0x0009-0x000A"
    );
}

#[test]
fn series_file_names_are_parsed() {
    assert_eq!(parse_feature_series_file_name("feature_a0_003.bin"), Some((0xA0, 3)));
    assert_eq!(parse_feature_series_file_name("feature_A1_12.bin"), Some((0xA1, 12)));
    assert_eq!(parse_feature_series_file_name("feature_a0_003.txt"), None);
    assert_eq!(parse_feature_series_file_name("feature_a0.bin"), None);
    assert_eq!(parse_feature_series_file_name("feature_100_1.bin"), None);
    assert_eq!(parse_feature_series_file_name("input_001.bin"), None);
    assert_eq!(parse_feature_series_file_name("feature_a0_1_2.bin"), None);
    assert_eq!(parse_feature_series_file_name("feature__1.bin"), None);
}

#[test]
fn hub_responses_are_described() {
    let mut data = vec![0_u8; 64];
    data[0] = 0x02;
    data[8] = 0x14;
    data[9] = 0x04;
    data[10] = 0x10;
    data[11] = 3;
    data[0x0E] = 100;
    data[0x10] = 0xFF;
    data[0x12] = 90;
    assert_eq!(
        describe_hub_response(&data, 3).as_deref(),
        Some("    parsed explicit-response left=100% right=unavailable case=90%")
    );
    assert_eq!(
        describe_hub_response(&data, 4).as_deref(),
        Some("    parsed async-or-stale left=100% right=unavailable case=90%")
    );
    assert_eq!(describe_hub_response(&data[..10], 3), None);
}

#[test]
fn report_id_lists() {
    assert_eq!(hex_list(&[0xA0, 0xA1], ","), "A0,A1");
    assert_eq!(hex_list(&[0x02, 0xA0], ", "), "02, A0");
    assert_eq!(hex_list(&[], ", "), "");
}
