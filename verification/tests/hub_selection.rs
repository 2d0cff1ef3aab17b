use inzone_buds_battery_tray::hid::inzone_hub::{
    build_hub_request, hub_device_filter, hub_read_timeout_ms, hub_read_window_ms, keep_draining,
    keep_gathering, DrainRead,
    parse_hub_battery_report, select_hub_battery_report, HUB_USAGE, HUB_USAGE_PAGE,
};
use inzone_buds_battery_tray::config::settings::Settings;

fn response(sequence: u8, kind: u8, left: u8, right: u8, case: u8) -> Vec<u8> {
    let mut data = vec![0_u8; 64];
    data[0] = 0x02;
    data[1] = 0x12;
    data[2] = 0x04;
    data[8] = 0x14;
    data[9] = 0x04;
    data[10] = kind;
    data[11] = sequence;
    data[0x0E] = left;
    data[0x10] = right;
    data[0x12] = case;
    data
}

#[test]
fn explicit_answer_wins_over_stale_reports() {
    let reports = vec![
        response(3, 0x10, 10, 20, 30),
        vec![0x01, 0x02],
        response(5, 0x10, 100, 0xFF, 100),
        response(9, 0x10, 1, 2, 3),
    ];
    let chosen = select_hub_battery_report(&reports, 5).unwrap();
    assert_eq!(chosen.left, Some(100));
    assert_eq!(chosen.right, None);
    assert_eq!(chosen.case, Some(100));
    assert_eq!(chosen.raw, reports[2]);
}

#[test]
fn stale_battery_reports_are_not_taken_for_an_answer() {
    // Battery reports that answer other requests, or none, give no result:
    // the status stays unknown instead of guessing.
    let reports = vec![
        response(3, 0x10, 10, 20, 30),
        response(4, 0x00, 40, 50, 60),
        vec![0x02, 0x00],
    ];
    assert!(select_hub_battery_report(&reports, 7).is_none());
    let answered_elsewhere = vec![response(5, 0x10, 100, 100, 100)];
    assert!(select_hub_battery_report(&answered_elsewhere, 1).is_none());
    assert!(select_hub_battery_report(&answered_elsewhere, 5).is_some());
}

#[test]
fn no_battery_report_selects_nothing() {
    let reports = vec![vec![0x02, 0x00, 0x00], build_hub_request(0x04, 1)];
    assert!(select_hub_battery_report(&reports, 1).is_none());
    assert!(select_hub_battery_report(&Vec::new(), 1).is_none());
}

#[test]
fn request_checksum_wraps_around() {
    let request = build_hub_request(0xFF, 0xFF);
    assert_eq!(request.len(), 64);
    assert_eq!(request[9], 0xFF);
    assert_eq!(request[11], 0xFF);
    assert_eq!(request[13], 0x99);
    assert!(request[14..].iter().all(|byte| *byte == 0));
}

#[test]
fn echoed_request_is_not_a_battery_response() {
    assert!(parse_hub_battery_report(&build_hub_request(0x04, 1)).is_none());
}

#[test]
fn levels_above_100_are_unavailable() {
    let report = parse_hub_battery_report(&response(1, 0x10, 101, 0, 0x64)).unwrap();
    assert_eq!(report.left, None);
    assert_eq!(report.right, Some(0));
    assert_eq!(report.case, Some(100));
    let status = report.to_battery_status();
    assert!(status.known);
    assert!(status.connected);
}

#[test]
fn hub_filter_targets_vendor_collection() {
    let settings = Settings::default();
    let filter = hub_device_filter(&settings);
    assert_eq!(filter.vendor_id, Some(0x054c));
    assert_eq!(filter.product_id, Some(0x0ec2));
    assert_eq!(filter.interface_number, Some(5));
    assert_eq!(filter.usage_page, Some(HUB_USAGE_PAGE));
    assert_eq!(filter.usage, Some(HUB_USAGE));
}

#[test]
fn read_timeouts_are_clamped() {
    assert_eq!(hub_read_window_ms(0), 1);
    assert_eq!(hub_read_window_ms(-5), 1);
    assert_eq!(hub_read_window_ms(1000), 1000);
    assert_eq!(hub_read_timeout_ms(0), 1);
    assert_eq!(hub_read_timeout_ms(250), 250);
    assert_eq!(hub_read_timeout_ms(u128::MAX), i32::MAX);
}

#[test]
fn gathering_stops_at_deadline_or_sixteen_reports() {
    assert!(keep_gathering(false, 0));
    assert!(keep_gathering(false, 15));
    assert!(!keep_gathering(false, 16));
    assert!(!keep_gathering(true, 0));
}

#[test]
fn draining_stops_after_eight_reads_or_silence() {
    assert!(keep_draining(1, DrainRead::Report));
    assert!(keep_draining(7, DrainRead::Report));
    assert!(!keep_draining(8, DrainRead::Report));
    assert!(!keep_draining(1, DrainRead::Nothing));
    assert!(!keep_draining(1, DrainRead::Failed));
}
