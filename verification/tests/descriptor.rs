use inzone_buds_battery_tray::cli::descriptor::{
    extract_report_ids, feature_report_ids_for_descriptor, probe_report_ids,
};
use inzone_buds_battery_tray::config::settings::Settings;

#[test]
fn report_ids_in_order_without_duplicates() {
    // Usage Page (2 bytes), Report ID 2, Input, Report ID 0xA0, Report ID 2 again.
    let descriptor = [
        0x06, 0x04, 0xFF, 0x85, 0x02, 0x81, 0x02, 0x85, 0xA0, 0x85, 0x02, 0xC0,
    ];
    assert_eq!(extract_report_ids(&descriptor), vec![0x02, 0xA0]);
}

#[test]
fn long_items_are_skipped() {
    // A long item holding 0x85 in its data, then a Report ID item.
    let descriptor = [0xFE, 0x02, 0x00, 0x85, 0x07, 0x85, 0x09];
    assert_eq!(extract_report_ids(&descriptor), vec![0x09]);
    // A cut-short long item ends the walk.
    assert_eq!(extract_report_ids(&[0x85, 0x01, 0xFE, 0x05]), vec![0x01]);
}

#[test]
fn report_id_item_at_end_without_data() {
    assert!(extract_report_ids(&[0x85]).is_empty());
    assert!(extract_report_ids(&[]).is_empty());
    // Size code 3 (four data bytes) is honored.
    assert_eq!(extract_report_ids(&[0x87, 0x05, 0x85, 0x06, 0x00, 0x85, 0x08]), vec![0x05, 0x08]);
}

#[test]
fn configured_ids_when_only_the_app_collection_is_captured() {
    let settings = Settings::default();
    let descriptor = [0x85, 0x02];
    assert_eq!(
        feature_report_ids_for_descriptor(&settings, false, &descriptor),
        vec![0xA0, 0xA1]
    );
    assert_eq!(
        feature_report_ids_for_descriptor(&settings, true, &descriptor),
        vec![0x02, 0xA0, 0xA1]
    );
    let with_a0 = [0x85, 0xA0, 0x85, 0x03];
    assert_eq!(
        feature_report_ids_for_descriptor(&settings, true, &with_a0),
        vec![0xA0, 0x03, 0xA1]
    );
    let mut empty = Settings::default();
    empty.feature_report_ids.clear();
    assert_eq!(
        feature_report_ids_for_descriptor(&empty, false, &descriptor),
        vec![0x02]
    );
}

#[test]
fn probing_falls_back_to_report_zero() {
    assert_eq!(probe_report_ids(&[0x06, 0x04, 0xFF, 0xC0]), vec![0x00]);
    assert_eq!(probe_report_ids(&[0x85, 0x03, 0x85, 0x01]), vec![0x03, 0x01]);
}
