use inzone_buds_battery_tray::models::battery_status::BatteryStatus;
use inzone_buds_battery_tray::tray::icon_renderer::{
    checked_status_icon, is_drawable_level, render_status_icon, ICON_BYTES,
};

fn pixel(rgba: &[u8], x: usize, y: usize) -> [u8; 4] {
    let o = (y * 64 + x) * 4;
    [rgba[o], rgba[o + 1], rgba[o + 2], rgba[o + 3]]
}

const BG: [u8; 4] = [24, 28, 33, 230];
const TRACK: [u8; 4] = [52, 58, 66, 255];
const BORDER: [u8; 4] = [132, 142, 156, 255];
const GREEN: [u8; 4] = [70, 190, 80, 255];
const RED: [u8; 4] = [255, 68, 68, 255];
const UNKNOWN: [u8; 4] = [150, 150, 150, 255];

#[test]
fn disconnected_icon_shows_unknown_markers() {
    let rgba = render_status_icon(&BatteryStatus::disconnected());
    assert_eq!(rgba.len(), ICON_BYTES);
    assert_eq!(pixel(&rgba, 0, 0), BG);
    assert_eq!(pixel(&rgba, 10, 6), BORDER);
    assert_eq!(pixel(&rgba, 12, 8), TRACK);
    assert_eq!(pixel(&rgba, 12, 30), UNKNOWN);
    assert_eq!(pixel(&rgba, 23, 33), UNKNOWN);
    assert_eq!(pixel(&rgba, 23, 34), TRACK);
    assert_eq!(pixel(&rgba, 40, 31), UNKNOWN);
    assert_eq!(pixel(&rgba, 63, 63), BG);
}

#[test]
fn levels_fill_from_the_bottom() {
    let rgba = render_status_icon(&BatteryStatus::with_levels(100, 10, 50));
    // Left at 100%: all 48 track rows filled green.
    assert_eq!(pixel(&rgba, 12, 8), GREEN);
    assert_eq!(pixel(&rgba, 12, 55), GREEN);
    assert_eq!(pixel(&rgba, 12, 56), BORDER);
    // Right at 10%: 4 rows (10 * 48 / 100), red.
    assert_eq!(pixel(&rgba, 40, 51), TRACK);
    assert_eq!(pixel(&rgba, 40, 52), RED);
    assert_eq!(pixel(&rgba, 40, 55), RED);
}

#[test]
fn smallest_level_fills_one_row() {
    let rgba = render_status_icon(&BatteryStatus::with_levels(1, 0, 0));
    assert_eq!(pixel(&rgba, 12, 55), RED);
    assert_eq!(pixel(&rgba, 12, 54), TRACK);
    assert_eq!(pixel(&rgba, 40, 55), TRACK);
}

#[test]
fn checked_icon_refuses_levels_the_bars_cannot_show() {
    assert!(is_drawable_level(None));
    assert!(is_drawable_level(Some(102)));
    assert!(!is_drawable_level(Some(103)));
    let full = BatteryStatus::with_levels(100, 100, 100);
    assert_eq!(checked_status_icon(&full), Some(render_status_icon(&full)));
    let too_high = BatteryStatus::with_optional_levels(Some(50), Some(200), None);
    assert_eq!(checked_status_icon(&too_high), None);
}
