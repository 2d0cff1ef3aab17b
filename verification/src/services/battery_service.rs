//! The decisions of the polling service: which status a poll yields, when a
//! new status is published, when a low battery is announced, and which
//! sequence number the next battery query carries.
use vstd::prelude::*;

use crate::hid::inzone_hub::HubBatteryReport;
use crate::hid::inzone_parser::{
    feature_report_bodies, feature_status_from, input_report_status, parse_feature_reports,
    parse_report,
};
use crate::models::battery_status::BatteryStatus;

verus! {

/// Size of a plain input report.
pub const REPORT_SIZE: usize = 64;

/// How long one read waits for the dongle.
pub const READ_TIMEOUT_MS: i32 = 1000;

/// Messages to the polling service.
#[derive(Debug, Clone, Copy, PartialEq, Eq, Structural)]
pub enum ServiceCommand {
    Shutdown,
}

/// How a battery query on the hub collection ended.
#[derive(Debug, Clone)]
pub enum HubQueryOutcome {
    Report(HubBatteryReport),
    NoData,
    Failed,
}

/// The state the service carries from one poll to the next.
#[derive(Debug, Clone, Copy)]
pub struct BatteryMonitor {
    pub previous_status: BatteryStatus,
    pub left_low_notified: bool,
    pub right_low_notified: bool,
    pub hub_sequence: u8,
}

/// What the service does after a poll: publish a changed status, and announce
/// a low left or right earbud with its level.
#[derive(Debug, Clone, Copy)]
pub struct MonitorActions {
    pub publish: Option<BatteryStatus>,
    pub notify_left: Option<u8>,
    pub notify_right: Option<u8>,
}

/// The sequence after `sequence`, skipping 0: 1, 2, ..., 255, 1, ...
pub open spec fn sequence_after(sequence: u8) -> u8 {
    if sequence == 255 {
        1
    } else {
        (sequence + 1) as u8
    }
}

/// One step of the low-battery alarm of an earbud: the new "already notified"
/// flag and the level to announce, if any. A level at or below the threshold
/// announces once; one above re-arms; an unavailable level changes nothing.
pub open spec fn low_battery_step(level: Option<u8>, threshold: u8, notified: bool) -> (
    bool,
    Option<u8>,
) {
    match level {
        Some(p) => if p <= threshold {
            (true, if notified {
                None
            } else {
                Some(p)
            })
        } else {
            (false, None)
        },
        None => (notified, None),
    }
}

/// How many announcements the alarm makes over a run of levels.
pub open spec fn announcements(levels: Seq<Option<u8>>, threshold: u8, notified: bool) -> nat
    decreases levels.len(),
{
    if levels.len() == 0 {
        0
    } else {
        let (next, said) = low_battery_step(levels[0], threshold, notified);
        (if said is Some {
            1nat
        } else {
            0nat
        }) + announcements(levels.drop_first(), threshold, next)
    }
}

pub fn next_hub_sequence(sequence: u8) -> (next: u8)
    ensures
        next == sequence_after(sequence),
        next != 0,
{
    let next = sequence.wrapping_add(1);
    if next == 0 {
        1
    } else {
        next
    }
}

/// Advances the low-battery alarm of one earbud; returns the level to announce.
pub fn update_low_battery_notification(level: Option<u8>, threshold: u8, notified: &mut bool) -> (announce: Option<u8>)
    ensures
        (*final(notified), announce) == low_battery_step(level, threshold, *old(notified)),
{
    match level {
        Some(percent) => {
            if percent <= threshold {
                let announce = if !*notified {
                    Some(percent)
                } else {
                    None
                };
                *notified = true;
                announce
            } else {
                *notified = false;
                None
            }
        },
        None => None,
    }
}

/// The status a hub battery query yields: the levels of its report, or
/// connected but unknown when it gave no report or failed.
pub fn hub_poll_status(outcome: &HubQueryOutcome) -> (status: BatteryStatus)
    ensures
        status == match outcome {
            HubQueryOutcome::Report(r) => BatteryStatus::from_levels(r.left, r.right, r.case),
            _ => BatteryStatus { left: None, right: None, case: None, connected: true, known: false },
        },
{
    match outcome {
        HubQueryOutcome::Report(report) => report.to_battery_status(),
        _ => BatteryStatus::unknown_connected(),
    }
}

/// The status the feature reports that came back yield; `None` when none
/// came back, and the poll goes on to a plain input read.
pub fn feature_poll_status(reports: &[(u8, Vec<u8>)]) -> (status: Option<BatteryStatus>)
    ensures
        reports@.len() == 0 ==> status is None,
        reports@.len() > 0 ==> status == Some(
            feature_status_from(feature_report_bodies(reports@), 0),
        ),
{
    if reports.len() == 0 {
        None
    } else {
        Some(parse_feature_reports(reports))
    }
}

/// The status a plain input read yields: its levels, or disconnected when nothing came.
pub fn input_poll_status(report: Option<&[u8]>) -> (status: BatteryStatus)
    ensures
        report is None ==> status == (BatteryStatus {
            left: None,
            right: None,
            case: None,
            connected: false,
            known: false,
        }),
        report matches Some(d) ==> status == input_report_status(d@),
{
    match report {
        Some(data) => parse_report(data),
        None => BatteryStatus::disconnected(),
    }
}

impl BatteryMonitor {
    /// Before the first poll: disconnected, nothing announced, sequence 1.
    pub open spec fn initial() -> Self {
        BatteryMonitor {
            previous_status: BatteryStatus {
                left: None,
                right: None,
                case: None,
                connected: false,
                known: false,
            },
            left_low_notified: false,
            right_low_notified: false,
            hub_sequence: 1,
        }
    }

    /// The state after a poll that yielded `status`.
    pub open spec fn after_poll(self, status: BatteryStatus, threshold: u8) -> Self {
        BatteryMonitor {
            previous_status: status,
            left_low_notified: low_battery_step(status.left, threshold, self.left_low_notified).0,
            right_low_notified: low_battery_step(status.right, threshold, self.right_low_notified).0,
            hub_sequence: sequence_after(self.hub_sequence),
        }
    }

    /// What a poll that yielded `status` makes the service do.
    pub open spec fn poll_actions(self, status: BatteryStatus, threshold: u8) -> MonitorActions {
        MonitorActions {
            publish: if status == self.previous_status {
                None
            } else {
                Some(status)
            },
            notify_left: low_battery_step(status.left, threshold, self.left_low_notified).1,
            notify_right: low_battery_step(status.right, threshold, self.right_low_notified).1,
        }
    }

    pub fn new() -> (m: Self)
        ensures
            m == Self::initial(),
            m.previous_status == (BatteryStatus {
                left: None,
                right: None,
                case: None,
                connected: false,
                known: false,
            }),
            !m.left_low_notified,
            !m.right_low_notified,
            m.hub_sequence == 1,
    {
        BatteryMonitor {
            previous_status: BatteryStatus::disconnected(),
            left_low_notified: false,
            right_low_notified: false,
            hub_sequence: 1,
        }
    }

    /// Takes in the status of the poll that used `self.hub_sequence`.
    pub fn record_poll(&mut self, status: BatteryStatus, low_battery_threshold: u8) -> (actions:
        MonitorActions)
        ensures
            *final(self) == old(self).after_poll(status, low_battery_threshold),
            actions == old(self).poll_actions(status, low_battery_threshold),
            final(self).hub_sequence == sequence_after(old(self).hub_sequence),
            final(self).previous_status == status,
            actions.publish == if status == old(self).previous_status {
                None
            } else {
                Some(status)
            },
            (final(self).left_low_notified, actions.notify_left) == low_battery_step(
                status.left,
                low_battery_threshold,
                old(self).left_low_notified,
            ),
            (final(self).right_low_notified, actions.notify_right) == low_battery_step(
                status.right,
                low_battery_threshold,
                old(self).right_low_notified,
            ),
    {
        self.hub_sequence = next_hub_sequence(self.hub_sequence);
        let publish = if status != self.previous_status {
            self.previous_status = status;
            Some(status)
        } else {
            None
        };
        let mut left = self.left_low_notified;
        let notify_left = update_low_battery_notification(status.left, low_battery_threshold, &mut left);
        self.left_low_notified = left;
        let mut right = self.right_low_notified;
        let notify_right = update_low_battery_notification(
            status.right,
            low_battery_threshold,
            &mut right,
        );
        self.right_low_notified = right;
        MonitorActions { publish, notify_left, notify_right }
    }
}

/// While no level rises above the threshold, an earbud is announced at most
/// once, and not at all if it was already announced.
pub proof fn lemma_low_battery_announced_at_most_once(
    levels: Seq<Option<u8>>,
    threshold: u8,
    notified: bool,
)
    requires
        forall|i: int| 0 <= i < levels.len() ==> (#[trigger] levels[i] matches Some(p) ==> p
            <= threshold),
    ensures
        announcements(levels, threshold, notified) <= 1,
        notified ==> announcements(levels, threshold, notified) == 0,
    decreases levels.len(),
{
    if levels.len() > 0 {
        let (next, said) = low_battery_step(levels[0], threshold, notified);
        assert forall|i: int| 0 <= i < levels.drop_first().len() implies (
        #[trigger] levels.drop_first()[i] matches Some(p) ==> p <= threshold) by {
            assert(levels.drop_first()[i] == levels[i + 1]);
        }
        lemma_low_battery_announced_at_most_once(levels.drop_first(), threshold, next);
        if said is Some {
            assert(next);
        }
    }
}

/// After a level above the threshold, the next level at or below it is announced.
pub proof fn lemma_low_battery_rearms(high: u8, low: u8, threshold: u8, notified: bool)
    requires
        high > threshold,
        low <= threshold,
    ensures
        ({
            let (after_high, _) = low_battery_step(Some(high), threshold, notified);
            low_battery_step(Some(low), threshold, after_high) == (true, Some(low))
        }),
{
}

/// The query sequence never takes the value 0, and it runs through 1..=255 in turn.
pub proof fn lemma_sequence_skips_zero(sequence: u8)
    ensures
        sequence_after(sequence) != 0,
        1 <= sequence < 255 ==> sequence_after(sequence) == sequence + 1,
        sequence == 255 ==> sequence_after(sequence) == 1,
{
}

/// A reading at or below the threshold.
pub open spec fn is_low(level: Option<u8>, threshold: u8) -> bool {
    level matches Some(p) && p <= threshold
}

/// A reading above the threshold: it re-arms the alarm.
pub open spec fn is_high(level: Option<u8>, threshold: u8) -> bool {
    level matches Some(p) && p > threshold
}

/// The "already notified" flag of an earbud after its first `k` readings,
/// starting from a fresh alarm.
pub open spec fn notified_after(levels: Seq<Option<u8>>, threshold: u8, k: int) -> bool
    decreases k,
{
    if k <= 0 {
        false
    } else {
        low_battery_step(levels[k - 1], threshold, notified_after(levels, threshold, k - 1)).0
    }
}

/// What the alarm announces at reading `k`.
pub open spec fn announced_at(levels: Seq<Option<u8>>, threshold: u8, k: int) -> Option<u8> {
    low_battery_step(levels[k], threshold, notified_after(levels, threshold, k)).1
}

/// Over a run of readings of one earbud, from a fresh alarm: reading `k` is
/// announced, with its own level, exactly when it is at or below the
/// threshold and nothing was announced since the start or since the last
/// reading above the threshold. An unavailable reading neither announces nor
/// re-arms.
pub proof fn lemma_low_battery_alarm_over_a_run(levels: Seq<Option<u8>>, threshold: u8, k: int)
    requires
        0 <= k < levels.len(),
    ensures
        announced_at(levels, threshold, k) is Some <==> (is_low(levels[k], threshold) && !exists|
            j: int,
        |
            0 <= j < k && announced_at(levels, threshold, j) is Some && forall|m: int|
                j < m < k ==> !is_high(#[trigger] levels[m], threshold)),
        announced_at(levels, threshold, k) is Some ==> announced_at(levels, threshold, k)
            == levels[k],
        levels[k] is None ==> announced_at(levels, threshold, k) is None && notified_after(
            levels,
            threshold,
            k + 1,
        ) == notified_after(levels, threshold, k),
{
    lemma_notified_since_announcement(levels, threshold, k);
}

/// The flag before reading `k` is set exactly when some earlier reading was
/// announced and no reading since then was above the threshold.
proof fn lemma_notified_since_announcement(levels: Seq<Option<u8>>, threshold: u8, k: int)
    requires
        0 <= k <= levels.len(),
    ensures
        notified_after(levels, threshold, k) <==> exists|j: int|
            0 <= j < k && announced_at(levels, threshold, j) is Some && forall|m: int|
                j < m < k ==> !is_high(#[trigger] levels[m], threshold),
    decreases k,
{
    if k > 0 {
        let p = k - 1;
        lemma_notified_since_announcement(levels, threshold, p);
        let before = notified_after(levels, threshold, p);
        if is_high(levels[p], threshold) {
            assert forall|j: int|
                0 <= j < k && announced_at(levels, threshold, j) is Some implies !(forall|m: int|
                j < m < k ==> !is_high(#[trigger] levels[m], threshold)) by {
                if j < p {
                    assert(is_high(levels[p], threshold));
                }
            }
        } else if is_low(levels[p], threshold) {
            if !before {
                assert(announced_at(levels, threshold, p) is Some);
                assert(forall|m: int| p < m < k ==> !is_high(#[trigger] levels[m], threshold));
            } else {
                let j = choose|j: int|
                    0 <= j < p && announced_at(levels, threshold, j) is Some && forall|m: int|
                        j < m < p ==> !is_high(#[trigger] levels[m], threshold);
                assert forall|m: int| j < m < k implies !is_high(#[trigger] levels[m], threshold) by {
                    if m == p {
                        assert(is_low(levels[p], threshold));
                    }
                }
            }
        } else {
            assert(levels[p] is None);
            assert(announced_at(levels, threshold, p) is None);
            if before {
                let j = choose|j: int|
                    0 <= j < p && announced_at(levels, threshold, j) is Some && forall|m: int|
                        j < m < p ==> !is_high(#[trigger] levels[m], threshold);
                assert forall|m: int| j < m < k implies !is_high(#[trigger] levels[m], threshold) by {
                }
            } else {
                assert forall|j: int|
                    0 <= j < k && announced_at(levels, threshold, j) is Some implies !(forall|m: int|
                    j < m < k ==> !is_high(#[trigger] levels[m], threshold)) by {
                    if j < p {
                        if forall|m: int| j < m < k ==> !is_high(#[trigger] levels[m], threshold) {
                            assert(forall|m: int| j < m < p ==> !is_high(#[trigger] levels[m], threshold));
                        }
                    }
                }
            }
        }
    }
}

/// The monitor after the first `k` polls of a run, starting from a new one.
pub open spec fn monitor_after(statuses: Seq<BatteryStatus>, threshold: u8, k: int) -> BatteryMonitor
    decreases k,
{
    if k <= 0 {
        BatteryMonitor::initial()
    } else {
        monitor_after(statuses, threshold, k - 1).after_poll(statuses[k - 1], threshold)
    }
}

/// The status before poll `k`: disconnected before the first one.
pub open spec fn status_before(statuses: Seq<BatteryStatus>, k: int) -> BatteryStatus {
    if k <= 0 {
        BatteryMonitor::initial().previous_status
    } else {
        statuses[k - 1]
    }
}

pub open spec fn left_levels(statuses: Seq<BatteryStatus>) -> Seq<Option<u8>> {
    statuses.map_values(|s: BatteryStatus| s.left)
}

pub open spec fn right_levels(statuses: Seq<BatteryStatus>) -> Seq<Option<u8>> {
    statuses.map_values(|s: BatteryStatus| s.right)
}

/// Over a run of polls from a new monitor, poll `k` (counting from 0) sends
/// the query with sequence `1 + k % 255`, never 0; it publishes its status
/// exactly when the status differs from the one before (disconnected before
/// the first poll); and each earbud's alarm behaves as the alarm over that
/// earbud's own readings alone.
pub proof fn lemma_monitor_over_polls(statuses: Seq<BatteryStatus>, threshold: u8, k: int)
    requires
        0 <= k < statuses.len(),
    ensures
        ({
            let m = monitor_after(statuses, threshold, k);
            let a = m.poll_actions(statuses[k], threshold);
            &&& m.hub_sequence == 1 + k % 255
            &&& m.hub_sequence != 0
            &&& a.publish == if statuses[k] == status_before(statuses, k) {
                None
            } else {
                Some(statuses[k])
            }
            &&& a.notify_left == announced_at(left_levels(statuses), threshold, k)
            &&& a.notify_right == announced_at(right_levels(statuses), threshold, k)
        }),
{
    lemma_monitor_state(statuses, threshold, k);
}

proof fn lemma_monitor_state(statuses: Seq<BatteryStatus>, threshold: u8, k: int)
    requires
        0 <= k <= statuses.len(),
    ensures
        ({
            let m = monitor_after(statuses, threshold, k);
            &&& m.hub_sequence == 1 + k % 255
            &&& m.previous_status == status_before(statuses, k)
            &&& m.left_low_notified == notified_after(left_levels(statuses), threshold, k)
            &&& m.right_low_notified == notified_after(right_levels(statuses), threshold, k)
        }),
    decreases k,
{
    if k > 0 {
        lemma_monitor_state(statuses, threshold, k - 1);
        let r = (k - 1) % 255;
        assert(r == 254 ==> k % 255 == 0) by (nonlinear_arith)
            requires
                r == (k - 1) % 255,
                k >= 1,
        ;
        assert(r < 254 ==> k % 255 == r + 1) by (nonlinear_arith)
            requires
                r == (k - 1) % 255,
                k >= 1,
        ;
        assert(left_levels(statuses)[k - 1] == statuses[k - 1].left);
        assert(right_levels(statuses)[k - 1] == statuses[k - 1].right);
    }
}

} // verus!
