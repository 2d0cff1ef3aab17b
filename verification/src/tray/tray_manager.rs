//! The text of the tray menu's summary line and of the tooltip.
use vstd::prelude::*;

use crate::models::battery_status::{percent_text, push_percent, BatteryStatus};

verus! {

/// `INZONE Buds: L <left> / R <right> / C <case>` while the dongle is
/// connected (`?` for a level that is unknown), or `INZONE Buds: Disconnected`.
pub open spec fn summary_text(status: BatteryStatus) -> Seq<char> {
    if !status.connected {
        "INZONE Buds: Disconnected"@
    } else {
        "INZONE Buds: L "@ + percent_text(status.left) + " / R "@ + percent_text(status.right)
            + " / C "@ + percent_text(status.case)
    }
}

/// The summary line; the tooltip shows the same text.
pub fn format_summary(status: &BatteryStatus) -> (s: String)
    ensures
        s@ == summary_text(*status),
{
    if !status.connected {
        return String::from_str("INZONE Buds: Disconnected");
    }
    let mut s = String::from_str("INZONE Buds: L ");
    push_percent(&mut s, status.left);
    s.append(" / R ");
    push_percent(&mut s, status.right);
    s.append(" / C ");
    push_percent(&mut s, status.case);
    s
}

} // verus!
