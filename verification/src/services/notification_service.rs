//! What the low-battery toast says and under which application it appears.
use vstd::prelude::*;

use crate::text::{decimal_chars, push_char, push_decimal};

verus! {

/// AppUserModelID under which the toasts appear.
pub const APP_ID: &'static str = "InzoneBuds.BatteryTray";

/// Display name registered for `APP_ID`, and the toast's title.
pub const APP_DISPLAY_NAME: &'static str = "INZONE Buds";

/// `Battery low: <percent>%`.
pub open spec fn low_battery_text(percent: u8) -> Seq<char> {
    "Battery low: "@ + decimal_chars(percent as nat).push('%')
}

pub fn low_battery_message(percent: u8) -> (m: String)
    ensures
        m@ == low_battery_text(percent),
{
    let mut m = String::from_str("Battery low: ");
    push_decimal(&mut m, percent as u128);
    push_char(&mut m, '%');
    assert(m@ =~= low_battery_text(percent));
    m
}

/// The registry key (under HKEY_CURRENT_USER) that registers `APP_ID`.
pub fn app_id_registry_path() -> (p: String)
    ensures
        p@ == "Software\\Classes\\AppUserModelId\\"@ + APP_ID@,
{
    let mut p = String::from_str("Software\\Classes\\AppUserModelId\\");
    p.append(APP_ID);
    p
}

} // verus!
