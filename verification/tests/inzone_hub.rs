use inzone_buds_battery_tray::hid::inzone_hub::{
    build_hub_request, parse_hub_battery_report, parse_hub_battery_report_for_sequence,
    HUB_BATTERY_SUBCOMMAND, HUB_REPORT_ID, HUB_REPORT_SIZE,
};

const RESPONSE_COMMAND: u8 = 0x14;
const LEFT_OFFSET: usize = 0x0E;
const RIGHT_OFFSET: usize = 0x10;
const CASE_OFFSET: usize = 0x12;

/// A battery response as documented in `docs/protocol.md`:
/// `02 12 04 FF 0F 00 96 C3 14 04 10 SS 00 00 LL 00 RR FF CC`.
fn battery_response(sequence: u8, left: u8, right: u8, case: u8) -> Vec<u8> {
    let mut data = vec![0_u8; HUB_REPORT_SIZE];
    data[0] = HUB_REPORT_ID;
    data[8] = RESPONSE_COMMAND;
    data[9] = HUB_BATTERY_SUBCOMMAND;
    data[10] = 0x10;
    data[11] = sequence;
    data[LEFT_OFFSET] = left;
    data[RIGHT_OFFSET] = right;
    data[CASE_OFFSET] = case;
    data
}

#[test]
fn parses_both_earbuds_out() {
    let report = parse_hub_battery_report(&battery_response(1, 100, 100, 100)).unwrap();
    assert_eq!(report.left, Some(100));
    assert_eq!(report.right, Some(100));
    assert_eq!(report.case, Some(100));
}

#[test]
fn decodes_0xff_as_unavailable() {
    let report = parse_hub_battery_report(&battery_response(1, 100, 0xFF, 100)).unwrap();
    assert_eq!(report.left, Some(100));
    assert_eq!(report.right, None);
    assert_eq!(report.case, Some(100));
}

#[test]
fn rejects_report_with_wrong_command() {
    let mut data = battery_response(1, 100, 100, 100);
    data[8] = 0x00;
    assert!(parse_hub_battery_report(&data).is_none());
}

#[test]
fn rejects_report_that_is_too_short() {
    assert!(parse_hub_battery_report(&[HUB_REPORT_ID, 0x12, 0x04]).is_none());
}

#[test]
fn matches_report_only_for_expected_sequence() {
    let data = battery_response(7, 50, 60, 70);
    assert!(parse_hub_battery_report_for_sequence(&data, 7).is_some());
    assert!(parse_hub_battery_report_for_sequence(&data, 8).is_none());
}

#[test]
fn builds_request_matching_protocol_example() {
    let request = build_hub_request(HUB_BATTERY_SUBCOMMAND, 1);
    assert_eq!(
        &request[..14],
        &[0x02, 0x0C, 0x01, 0x00, 0xFC, 0x08, 0x96, 0xC3, 0x41, 0x04, 0x01, 0x01, 0x00, 0xA0,]
    );
}
