use inzone_buds_battery_tray::hid::inzone_parser::{parse_feature_reports, parse_report};

#[test]
fn parse_report_reads_left_right_case_offsets() {
    let mut data = vec![0_u8; 8];
    data[5] = 85;
    data[6] = 82;
    data[7] = 100;
    let status = parse_report(&data);
    assert_eq!(status.left, Some(85));
    assert_eq!(status.right, Some(82));
    assert_eq!(status.case, Some(100));
    assert!(status.connected);
}

#[test]
fn parse_report_clamps_values_above_100() {
    let mut data = vec![0_u8; 8];
    data[5] = 200;
    data[6] = 150;
    data[7] = 101;
    let status = parse_report(&data);
    assert_eq!(status.left, Some(100));
    assert_eq!(status.right, Some(100));
    assert_eq!(status.case, Some(100));
}

#[test]
fn feature_reports_decode_first_plausible_triplet() {
    // The heuristic scans 3-byte windows left to right and returns the
    // first plausible battery triplet, so lead with the real values.
    let reports = vec![(0xA0_u8, vec![85, 82, 100])];
    let status = parse_feature_reports(&reports);
    assert_eq!(status.left, Some(85));
    assert_eq!(status.right, Some(82));
    assert_eq!(status.case, Some(100));
}

#[test]
fn feature_reports_without_plausible_values_are_unknown() {
    let reports = vec![(0xA0_u8, vec![0x00, 0x00, 0x00, 0x00])];
    let status = parse_feature_reports(&reports);
    assert!(status.connected);
    assert!(!status.known);
}
