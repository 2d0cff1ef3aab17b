use inzone_buds_battery_tray::cli::format::parse_feature_series_file_name;
use inzone_buds_battery_tray::cli::names::{
    device_dir_name, device_info_text, device_summary_line, dump_file_name, dump_prefix,
    feature_file_name, input_file_name, named_dump_file_name, series_file_name, series_index_line,
    series_info_text, timestamped_dir_name,
};
use inzone_buds_battery_tray::hid::hid_manager::{
    device_matches, output_send_failure_message, HidDeviceFilter, HidDeviceSnapshot,
};

fn dongle() -> HidDeviceSnapshot {
    HidDeviceSnapshot {
        path: "\\\\?\\hid#vid_054c".to_string(),
        vendor_id: 0x054c,
        product_id: 0x0ec2,
        interface_number: 5,
        usage_page: 0xff04,
        usage: 0x0001,
        manufacturer_string: Some("Sony".to_string()),
        product_string: None,
        serial_number: None,
    }
}

#[test]
fn device_names_and_lines() {
    let d = dongle();
    assert_eq!(dump_prefix(&d), "vid054c_pid0ec2_if5_upff04_u0001");
    assert_eq!(device_dir_name(2, &d), "device_2_if5_upff04_u0001");
    assert_eq!(
        device_summary_line(&d),
        "VID=054C PID=0EC2 IF=5 USAGE_PAGE=FF04 USAGE=0001"
    );
    assert_eq!(
        device_info_text(&d),
        "VID=054C\nPID=0EC2\nIF=5\nUSAGE_PAGE=FF04\nUSAGE=0001\nPATH=\\\\?\\hid#vid_054c\n"
    );
    let mut other = dongle();
    other.interface_number = -1;
    assert_eq!(device_dir_name(0, &other), "device_0_if-1_upff04_u0001");
}

#[test]
fn file_names() {
    assert_eq!(feature_file_name(0xA0, "bin"), "feature_a0.bin");
    assert_eq!(feature_file_name(0x05, "txt"), "feature_05.txt");
    assert_eq!(series_file_name(0xA1, 7, "bin"), "feature_a1_007.bin");
    assert_eq!(series_file_name(0xA1, 1234, "txt"), "feature_a1_1234.txt");
    assert_eq!(input_file_name(3, "txt"), "input_003.txt");
    assert_eq!(dump_file_name("p", 1700000000000, 4), "p_1700000000000_004.bin");
    assert_eq!(named_dump_file_name("p_descriptor", 12), "p_descriptor_12.bin");
    assert_eq!(timestamped_dir_name(1725029869000, "left only"), "1725029869000_left_only");
    assert_eq!(
        series_index_line(3, 99, 0xA0, "ok", "feature_a0_003.bin"),
        "3,99,A0,ok,feature_a0_003.bin\n"
    );
}

#[test]
fn series_names_read_back() {
    for (id, index) in [(0x00_u8, 0_usize), (0xA0, 7), (0xFF, 80), (0x1B, 123456)] {
        let name = series_file_name(id, index, "bin");
        assert_eq!(parse_feature_series_file_name(&name), Some((id, index)));
    }
}

#[test]
fn filters_match_devices() {
    let d = dongle();
    assert!(device_matches(&d, &HidDeviceFilter::default()));
    let hub = HidDeviceFilter {
        vendor_id: Some(0x054c),
        product_id: Some(0x0ec2),
        interface_number: Some(5),
        usage_page: Some(0xff04),
        usage: Some(0x0001),
    };
    assert!(device_matches(&d, &hub));
    let legacy = HidDeviceFilter { usage_page: Some(0xff03), usage: Some(0x0020), ..hub };
    assert!(!device_matches(&d, &legacy));
}

#[test]
fn series_info_file() {
    assert_eq!(
        series_info_text("transition", 80, 250, true),
        "label=transition\nsamples=80\ninterval_ms=250\nall_collections=true\n"
    );
}

#[test]
fn send_failure_names_both_attempts() {
    assert_eq!(
        output_send_failure_message("Access is denied.", "The device is not connected."),
        "failed to send output report; HidD_SetOutputReport=Access is denied.; WriteFile=The device is not connected."
    );
}
