use inzone_buds_battery_tray::hid::inzone_parser::{parse_feature_reports, parse_report};

#[test]
fn all_full_triplet_is_plausible() {
    let status = parse_feature_reports(&[(0xA0, vec![100, 100, 100])]);
    assert_eq!(status.left, Some(100));
    assert!(status.known);
}

#[test]
fn equal_non_full_triplet_is_not_plausible() {
    let status = parse_feature_reports(&[(0xA0, vec![50, 50, 50])]);
    assert!(status.connected);
    assert!(!status.known);
}

#[test]
fn later_window_and_later_report_are_searched() {
    let status = parse_feature_reports(&[
        (0xA0, vec![0, 0, 0, 200, 200]),
        (0xA1, vec![0xFF, 0, 0, 90, 12]),
    ]);
    // First report: no window is plausible. Second: [0xFF, 0, 0] is out of
    // range, [0, 0, 90] is the first plausible window.
    assert_eq!(status.left, Some(0));
    assert_eq!(status.right, Some(0));
    assert_eq!(status.case, Some(90));
}

#[test]
fn no_reports_are_unknown() {
    let status = parse_feature_reports(&[]);
    assert!(status.connected);
    assert!(!status.known);
}

#[test]
fn short_input_report_reads_zeros() {
    let status = parse_report(&[1, 2, 3, 4, 5, 60]);
    assert_eq!(status.left, Some(60));
    assert_eq!(status.right, Some(0));
    assert_eq!(status.case, Some(0));
    assert!(status.known);
}
