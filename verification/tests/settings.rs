use inzone_buds_battery_tray::cli::args::{app_device_filter, capture_device_filter};
use inzone_buds_battery_tray::config::settings::{
    default_feature_report_ids, default_feature_report_size, default_interface_number,
    default_product_id, default_usage, default_usage_page, default_vendor_id, Settings,
    SETTINGS_DIR, SETTINGS_FILE_NAME,
};

#[test]
fn defaults_target_the_inzone_dongle() {
    let s = Settings::default();
    assert_eq!(s.low_battery_threshold, 20);
    assert_eq!(s.poll_interval_ms, 60_000);
    assert_eq!(s.vendor_id, default_vendor_id());
    assert_eq!(s.vendor_id, 0x054c);
    assert_eq!(default_product_id(), Some(0x0ec2));
    assert_eq!(default_interface_number(), Some(5));
    assert_eq!(default_usage_page(), Some(0xff03));
    assert_eq!(default_usage(), Some(0x0020));
    assert_eq!(default_feature_report_ids(), vec![0xA0, 0xA1]);
    assert_eq!(default_feature_report_size(), 256);
}

#[test]
fn app_filter_uses_configured_collection() {
    let f = app_device_filter(&Settings::default());
    assert_eq!(f.vendor_id, Some(0x054c));
    assert_eq!(f.product_id, Some(0x0ec2));
    assert_eq!(f.interface_number, Some(5));
    assert_eq!(f.usage_page, Some(0xff03));
    assert_eq!(f.usage, Some(0x0020));
}

#[test]
fn capture_filter_widens_to_all_collections() {
    let settings = Settings::default();
    let all = capture_device_filter(&settings, true);
    assert_eq!(all.vendor_id, Some(0x054c));
    assert_eq!(all.product_id, Some(0x0ec2));
    assert_eq!(all.interface_number, None);
    assert_eq!(all.usage_page, None);
    assert_eq!(all.usage, None);
    assert_eq!(capture_device_filter(&settings, false), app_device_filter(&settings));
}

#[test]
fn settings_live_in_config_dir() {
    assert_eq!(SETTINGS_DIR, "config");
    assert_eq!(SETTINGS_FILE_NAME, "settings.json");
}
