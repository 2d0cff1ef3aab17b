use inzone_buds_battery_tray::models::battery_status::BatteryStatus;
use inzone_buds_battery_tray::tray::tray_manager::format_summary;

#[test]
fn disconnected_status_is_not_displayable() {
    let status = BatteryStatus::disconnected();
    assert!(!status.connected);
    assert!(!status.known);
    assert!(!status.has_displayable_values());
    assert_eq!(status.min_percent(), None);
}

#[test]
fn unknown_connected_status_is_not_displayable() {
    let status = BatteryStatus::unknown_connected();
    assert!(status.connected);
    assert!(!status.known);
    assert!(!status.has_displayable_values());
}

#[test]
fn optional_levels_are_known_when_any_is_present() {
    let none = BatteryStatus::with_optional_levels(None, None, None);
    assert!(none.connected);
    assert!(!none.known);
    let right_only = BatteryStatus::with_optional_levels(None, Some(40), None);
    assert!(right_only.known);
    assert!(right_only.has_displayable_values());
}

#[test]
fn min_percent_ignores_missing_levels() {
    assert_eq!(BatteryStatus::with_levels(85, 82, 100).min_percent(), Some(82));
    assert_eq!(
        BatteryStatus::with_optional_levels(Some(100), None, Some(90)).min_percent(),
        Some(90)
    );
    assert_eq!(
        BatteryStatus::with_optional_levels(None, None, Some(7)).min_percent(),
        Some(7)
    );
}

#[test]
fn summary_lines_for_left_earbud_only() {
    let status = BatteryStatus::with_optional_levels(Some(100), None, Some(100));
    let lines = status.summary_lines();
    assert_eq!(lines[0], "Status: Connected");
    assert_eq!(lines[1], "Left: 100%");
    assert_eq!(lines[2], "Right: ?");
    assert_eq!(lines[3], "Case: 100%");
}

#[test]
fn summary_lines_when_disconnected() {
    let lines = BatteryStatus::disconnected().summary_lines();
    assert_eq!(lines[0], "Status: Disconnected");
    assert_eq!(lines[1], "Left: --");
    assert_eq!(lines[2], "Right: --");
    assert_eq!(lines[3], "Case: --");
}

#[test]
fn summary_lines_when_connected_but_unknown() {
    // Both earbuds in the case: the dongle is there but does not answer.
    let lines = BatteryStatus::unknown_connected().summary_lines();
    assert_eq!(lines[0], "Status: Connected");
    assert_eq!(lines[1], "Left: ?");
    assert_eq!(lines[2], "Right: ?");
    assert_eq!(lines[3], "Case: ?");
}

#[test]
fn format_level_writes_percent_or_question_mark() {
    assert_eq!(BatteryStatus::format_level(Some(0)), "0%");
    assert_eq!(BatteryStatus::format_level(Some(7)), "7%");
    assert_eq!(BatteryStatus::format_level(Some(85)), "85%");
    assert_eq!(BatteryStatus::format_level(None), "?");
}

#[test]
fn summary_line_matches_readme_example() {
    let status = BatteryStatus::with_optional_levels(Some(100), None, Some(100));
    assert_eq!(format_summary(&status), "INZONE Buds: L 100% / R ? / C 100%");
    assert_eq!(
        format_summary(&BatteryStatus::unknown_connected()),
        "INZONE Buds: L ? / R ? / C ?"
    );
    assert_eq!(
        format_summary(&BatteryStatus::disconnected()),
        "INZONE Buds: Disconnected"
    );
}
