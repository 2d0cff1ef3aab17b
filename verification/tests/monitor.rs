use inzone_buds_battery_tray::cli::format::next_sequence;
use inzone_buds_battery_tray::hid::inzone_hub::parse_hub_battery_report;
use inzone_buds_battery_tray::models::battery_status::BatteryStatus;
use inzone_buds_battery_tray::services::battery_service::{
    feature_poll_status, hub_poll_status, input_poll_status, next_hub_sequence, update_low_battery_notification,
    BatteryMonitor, HubQueryOutcome,
};
use inzone_buds_battery_tray::services::notification_service::{
    app_id_registry_path, low_battery_message, APP_DISPLAY_NAME, APP_ID,
};

#[test]
fn sequence_skips_zero() {
    assert_eq!(next_hub_sequence(1), 2);
    assert_eq!(next_hub_sequence(254), 255);
    assert_eq!(next_hub_sequence(255), 1);
    assert_eq!(next_hub_sequence(0), 1);
    assert_eq!(next_sequence(255), 1);
    assert_eq!(next_sequence(7), 8);
}

#[test]
fn low_battery_notifies_once_until_recovered() {
    let mut notified = false;
    assert_eq!(update_low_battery_notification(Some(20), 20, &mut notified), Some(20));
    assert!(notified);
    assert_eq!(update_low_battery_notification(Some(15), 20, &mut notified), None);
    assert_eq!(update_low_battery_notification(None, 20, &mut notified), None);
    assert!(notified);
    assert_eq!(update_low_battery_notification(Some(21), 20, &mut notified), None);
    assert!(!notified);
    assert_eq!(update_low_battery_notification(Some(10), 20, &mut notified), Some(10));
}

#[test]
fn monitor_publishes_only_changes() {
    let mut monitor = BatteryMonitor::new();
    assert_eq!(monitor.hub_sequence, 1);
    let first = monitor.record_poll(BatteryStatus::disconnected(), 20);
    assert!(first.publish.is_none());
    assert_eq!(monitor.hub_sequence, 2);
    let status = BatteryStatus::with_levels(80, 15, 100);
    let second = monitor.record_poll(status.clone(), 20);
    assert_eq!(second.publish, Some(status.clone()));
    assert_eq!(second.notify_left, None);
    assert_eq!(second.notify_right, Some(15));
    let third = monitor.record_poll(status, 20);
    assert!(third.publish.is_none());
    assert_eq!(third.notify_right, None);
    assert_eq!(monitor.hub_sequence, 4);
}

#[test]
fn hub_outcomes_map_to_statuses() {
    let mut data = vec![0_u8; 64];
    data[0] = 0x02;
    data[8] = 0x14;
    data[9] = 0x04;
    data[0x0E] = 55;
    data[0x10] = 0xFF;
    data[0x12] = 0xFF;
    let report = parse_hub_battery_report(&data).unwrap();
    let status = hub_poll_status(&HubQueryOutcome::Report(report));
    assert_eq!(status, BatteryStatus::with_optional_levels(Some(55), None, None));
    assert_eq!(hub_poll_status(&HubQueryOutcome::NoData), BatteryStatus::unknown_connected());
    assert_eq!(hub_poll_status(&HubQueryOutcome::Failed), BatteryStatus::unknown_connected());
}

#[test]
fn input_poll_without_report_is_disconnected() {
    assert_eq!(input_poll_status(None), BatteryStatus::disconnected());
    let data = [0, 0, 0, 0, 0, 42, 43, 44];
    assert_eq!(input_poll_status(Some(&data)), BatteryStatus::with_levels(42, 43, 44));
}

#[test]
fn notification_text_and_app_id() {
    assert_eq!(low_battery_message(15), "Battery low: 15%");
    assert_eq!(APP_ID, "InzoneBuds.BatteryTray");
    assert_eq!(APP_DISPLAY_NAME, "INZONE Buds");
    assert_eq!(
        app_id_registry_path(),
        "Software\\Classes\\AppUserModelId\\InzoneBuds.BatteryTray"
    );
}

#[test]
fn feature_poll_needs_a_report() {
    assert_eq!(feature_poll_status(&[]), None);
    let reports = vec![(0xA0_u8, vec![0x00, 0x00, 0x00]), (0xA1_u8, vec![0xC8, 0x50, 0x3C, 0x64])];
    assert_eq!(
        feature_poll_status(&reports),
        Some(BatteryStatus::with_levels(80, 60, 100))
    );
    let unreadable = vec![(0xA0_u8, vec![0x00, 0x00, 0x00])];
    assert_eq!(feature_poll_status(&unreadable), Some(BatteryStatus::unknown_connected()));
}

#[test]
fn monitor_run_sequences_and_publications() {
    let mut monitor = BatteryMonitor::new();
    let a = BatteryStatus::with_levels(80, 70, 90);
    let b = BatteryStatus::unknown_connected();
    let mut previous = BatteryStatus::disconnected();
    for k in 0..600_usize {
        assert_eq!(monitor.hub_sequence as usize, 1 + k % 255);
        let status = if (k / 3) % 2 == 0 { a } else { b };
        let actions = monitor.record_poll(status, 20);
        if status == previous {
            assert_eq!(actions.publish, None);
        } else {
            assert_eq!(actions.publish, Some(status));
        }
        previous = status;
    }
}

#[test]
fn alarm_run_announces_once_per_drop() {
    // low, unavailable, low, high, low, low
    let levels = [Some(15), None, Some(10), Some(50), Some(20), Some(5)];
    let expected = [Some(15), None, None, None, Some(20), None];
    let mut notified = false;
    for (level, want) in levels.iter().zip(expected.iter()) {
        assert_eq!(update_low_battery_notification(*level, 20, &mut notified), *want);
    }
}
