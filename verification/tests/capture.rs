use inzone_buds_battery_tray::cli::capture::{capture_status, CaptureStatus};

#[test]
fn read_results_map_to_statuses() {
    assert_eq!(capture_status(Ok(64)), CaptureStatus::Data);
    assert_eq!(capture_status(Ok(0)), CaptureStatus::Empty);
    assert_eq!(capture_status(Err(())), CaptureStatus::Failed);
}

#[test]
fn statuses_name_files_and_index_entries() {
    assert_eq!(CaptureStatus::Data.label(), "ok");
    assert_eq!(CaptureStatus::Empty.label(), "empty");
    assert_eq!(CaptureStatus::Failed.label(), "error");
    assert_eq!(CaptureStatus::Data.file_extension(), "bin");
    assert_eq!(CaptureStatus::Empty.file_extension(), "txt");
    assert_eq!(CaptureStatus::Failed.file_extension(), "txt");
    assert_eq!(CaptureStatus::Data.state_feature_extension(), Some("bin"));
    assert_eq!(CaptureStatus::Empty.state_feature_extension(), None);
    assert_eq!(CaptureStatus::Failed.state_feature_extension(), Some("txt"));
}

#[test]
fn only_a_failed_read_ends_sampling() {
    assert!(!CaptureStatus::Data.ends_sampling());
    assert!(!CaptureStatus::Empty.ends_sampling());
    assert!(CaptureStatus::Failed.ends_sampling());
}
