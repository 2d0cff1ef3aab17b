//! Decoding battery levels from the dongle's plain input report and, as a
//! heuristic, from its vendor feature reports.
use vstd::prelude::*;

use crate::models::battery_status::BatteryStatus;

verus! {

/// The byte at `index`, or 0 past the end.
pub open spec fn byte_or_zero(data: Seq<u8>, index: int) -> u8 {
    if 0 <= index < data.len() {
        data[index]
    } else {
        0
    }
}

/// `value`, capped at 100.
pub open spec fn capped(value: u8) -> u8 {
    if value <= 100 {
        value
    } else {
        100
    }
}

/// The status an input report gives: bytes 5, 6 and 7 as left, right and
/// case, 0 where the report is shorter, each capped at 100.
pub open spec fn input_report_status(data: Seq<u8>) -> BatteryStatus {
    BatteryStatus::from_levels(
        Some(capped(byte_or_zero(data, 5))),
        Some(capped(byte_or_zero(data, 6))),
        Some(capped(byte_or_zero(data, 7))),
    )
}

/// Three bytes look like left, right and case levels: none above 100, not
/// all zero, and not all equal unless all are 100.
pub open spec fn plausible_triplet(left: u8, right: u8, case: u8) -> bool {
    &&& left <= 100 && right <= 100 && case <= 100
    &&& (left > 0 || right > 0 || case > 0)
    &&& (!(left == right && right == case) || left == 100)
}

/// The first position, at `start` or later, where three consecutive bytes form a plausible triplet.
pub open spec fn first_triplet_from(data: Seq<u8>, start: int) -> Option<int>
    decreases data.len() - start,
{
    if start < 0 || start + 3 > data.len() {
        None
    } else if plausible_triplet(data[start], data[start + 1], data[start + 2]) {
        Some(start)
    } else {
        first_triplet_from(data, start + 1)
    }
}

/// The status read from the first plausible triplet of a report, if any.
pub open spec fn triplet_status(data: Seq<u8>) -> Option<BatteryStatus> {
    match first_triplet_from(data, 0) {
        Some(i) => Some(BatteryStatus::from_levels(Some(data[i]), Some(data[i + 1]), Some(data[i + 2]))),
        None => None,
    }
}

/// The status of the first report, at `k` or later, that holds a plausible
/// triplet; connected but unknown when none does.
pub open spec fn feature_status_from(reports: Seq<Seq<u8>>, k: int) -> BatteryStatus
    decreases reports.len() - k,
{
    if k < 0 || k >= reports.len() {
        BatteryStatus { left: None, right: None, case: None, connected: true, known: false }
    } else {
        match triplet_status(reports[k]) {
            Some(s) => s,
            None => feature_status_from(reports, k + 1),
        }
    }
}

pub open spec fn feature_report_bodies(reports: Seq<(u8, Vec<u8>)>) -> Seq<Seq<u8>> {
    reports.map_values(|r: (u8, Vec<u8>)| r.1@)
}

/// Reads left, right and case from bytes 5, 6 and 7 (0 when missing), capped at 100.
pub fn parse_report(data: &[u8]) -> (status: BatteryStatus)
    ensures
        status == input_report_status(data@),
{
    let left = capped_byte_at(data, 5);
    let right = capped_byte_at(data, 6);
    let case = capped_byte_at(data, 7);
    BatteryStatus::with_levels(left, right, case)
}

fn capped_byte_at(data: &[u8], index: usize) -> (v: u8)
    ensures
        v == capped(byte_or_zero(data@, index as int)),
{
    let value: u8 = if index < data.len() {
        data[index]
    } else {
        0
    };
    if value <= 100 {
        value
    } else {
        100
    }
}

/// The levels of the first feature report that holds a plausible triplet.
pub fn parse_feature_reports(reports: &[(u8, Vec<u8>)]) -> (status: BatteryStatus)
    ensures
        status == feature_status_from(feature_report_bodies(reports@), 0),
{
    let ghost bodies = feature_report_bodies(reports@);
    let mut k: usize = 0;
    while k < reports.len()
        invariant
            k <= reports.len(),
            bodies == feature_report_bodies(reports@),
            feature_status_from(bodies, 0) == feature_status_from(bodies, k as int),
        decreases reports.len() - k,
    {
        let report = &reports[k].1;
        assert(bodies[k as int] == report@);
        if let Some(status) = parse_battery_triplet(report.as_slice()) {
            return status;
        }
        k = k + 1;
    }
    BatteryStatus::unknown_connected()
}

fn parse_battery_triplet(data: &[u8]) -> (status: Option<BatteryStatus>)
    ensures
        status == triplet_status(data@),
{
    let mut i: usize = 0;
    while i < data.len() && data.len() - i >= 3
        invariant
            i <= data.len(),
            first_triplet_from(data@, 0) == first_triplet_from(data@, i as int),
        decreases data.len() - i,
    {
        let left = data[i];
        let right = data[i + 1];
        let case = data[i + 2];
        if left <= 100 && right <= 100 && case <= 100 && plausibly_battery_values(left, right, case) {
            return Some(BatteryStatus::with_levels(left, right, case));
        }
        i = i + 1;
    }
    assert(first_triplet_from(data@, i as int) is None);
    None
}

fn plausibly_battery_values(left: u8, right: u8, case: u8) -> (b: bool)
    ensures
        b == ((left > 0 || right > 0 || case > 0) && !(left == 0 && right == 0 && case == 0) && (!(
        left == right && right == case) || left == 100)),
{
    let all_zero = left == 0 && right == 0 && case == 0;
    let all_same = left == right && right == case;
    let at_least_one_non_zero = left > 0 || right > 0 || case > 0;
    at_least_one_non_zero && !all_zero && (!all_same || left == 100)
}

/// Whatever an input report holds, the levels read from it are known,
/// connected, and never above 100.
pub proof fn lemma_input_levels_capped(data: Seq<u8>)
    ensures
        ({
            let s = input_report_status(data);
            &&& s.connected && s.known
            &&& s.left matches Some(l) && l <= 100
            &&& s.right matches Some(r) && r <= 100
            &&& s.case matches Some(c) && c <= 100
        }),
{
}

/// The feature heuristic yields either plausible levels from one of the
/// reports or a connected status with nothing known.
pub proof fn lemma_feature_status_shape(reports: Seq<Seq<u8>>, k: int)
    ensures
        ({
            let s = feature_status_from(reports, k);
            ||| (s.connected && !s.known && s.left is None && s.right is None && s.case is None)
            ||| (s.connected && s.known && s.left is Some && s.right is Some && s.case is Some
                && plausible_triplet(s.left->0, s.right->0, s.case->0))
        }),
    decreases reports.len() - k,
{
    if 0 <= k < reports.len() {
        match first_triplet_from(reports[k], 0) {
            Some(i) => {
                lemma_first_triplet_plausible(reports[k], 0);
            },
            None => {
                lemma_feature_status_shape(reports, k + 1);
            },
        }
    }
}

proof fn lemma_first_triplet_plausible(data: Seq<u8>, start: int)
    requires
        first_triplet_from(data, start) is Some,
    ensures
        ({
            let i = first_triplet_from(data, start)->0;
            &&& start <= i && i + 3 <= data.len()
            &&& plausible_triplet(data[i], data[i + 1], data[i + 2])
        }),
    decreases data.len() - start,
{
    if !(start < 0 || start + 3 > data.len()) && !plausible_triplet(
        data[start],
        data[start + 1],
        data[start + 2],
    ) {
        lemma_first_triplet_plausible(data, start + 1);
    }
}

/// A report of exactly three bytes is read as left, right and case exactly
/// when each is at most 100, they are not all 0, and they are not all equal
/// (unless all are 100); otherwise it yields connected but unknown.
pub proof fn lemma_three_level_feature_report(l: u8, r: u8, c: u8)
    ensures
        feature_status_from(seq![seq![l, r, c]], 0) == if l <= 100 && r <= 100 && c <= 100 && (l
            > 0 || r > 0 || c > 0) && !(l == r && r == c && l != 100) {
            BatteryStatus { left: Some(l), right: Some(r), case: Some(c), connected: true, known: true }
        } else {
            BatteryStatus { left: None, right: None, case: None, connected: true, known: false }
        },
{
    let data = seq![l, r, c];
    let reports = seq![data];
    assert(reports[0] == data);
    assert(data[0] == l && data[1] == r && data[2] == c);
    assert(first_triplet_from(data, 1) is None);
    assert(feature_status_from(reports, 1) == BatteryStatus {
        left: None,
        right: None,
        case: None,
        connected: true,
        known: false,
    });
    lemma_plausible_explicit(l, r, c);
}

proof fn lemma_plausible_explicit(l: u8, r: u8, c: u8)
    ensures
        plausible_triplet(l, r, c) == (l <= 100 && r <= 100 && c <= 100 && (l > 0 || r > 0 || c
            > 0) && !(l == r && r == c && l != 100)),
        plausible_triplet(l, r, c) == looks_like_levels(l, r, c),
{
}

/// Three bytes that can be left, right and case levels, as the feature
/// heuristic was designed: each at most 100, not all 0, and not all equal
/// unless all are 100 (a run of equal bytes is padding, not levels).
pub open spec fn looks_like_levels(l: u8, r: u8, c: u8) -> bool {
    l <= 100 && r <= 100 && c <= 100 && (l > 0 || r > 0 || c > 0) && !(l == r && r == c && l != 100)
}

/// A feature report is read at its first window of three consecutive bytes
/// that look like levels: the levels are those three bytes, connected and
/// known. A report with no such window yields no levels.
pub proof fn lemma_feature_report_first_plausible_window(data: Seq<u8>)
    ensures
        triplet_status(data) matches Some(s) ==> exists|i: int|
            0 <= i && i + 3 <= data.len() && #[trigger] looks_like_levels(
                data[i],
                data[i + 1],
                data[i + 2],
            ) && s == (BatteryStatus {
                left: Some(data[i]),
                right: Some(data[i + 1]),
                case: Some(data[i + 2]),
                connected: true,
                known: true,
            }) && forall|j: int|
                0 <= j < i ==> !#[trigger] looks_like_levels(data[j], data[j + 1], data[j + 2]),
        triplet_status(data) is None ==> forall|j: int|
            0 <= j && j + 3 <= data.len() ==> !#[trigger] looks_like_levels(
                data[j],
                data[j + 1],
                data[j + 2],
            ),
{
    lemma_first_window_from(data, 0);
    match first_triplet_from(data, 0) {
        Some(i) => {
            lemma_plausible_explicit(data[i], data[i + 1], data[i + 2]);
            assert forall|j: int| 0 <= j < i implies !#[trigger] looks_like_levels(
                data[j],
                data[j + 1],
                data[j + 2],
            ) by {
                lemma_plausible_explicit(data[j], data[j + 1], data[j + 2]);
            }
            assert(looks_like_levels(data[i], data[i + 1], data[i + 2]));
        },
        None => {
            assert forall|j: int| 0 <= j && j + 3 <= data.len() implies !#[trigger] looks_like_levels(
                data[j],
                data[j + 1],
                data[j + 2],
            ) by {
                lemma_plausible_explicit(data[j], data[j + 1], data[j + 2]);
            }
        },
    }
}

proof fn lemma_first_window_from(data: Seq<u8>, start: int)
    requires
        0 <= start,
    ensures
        first_triplet_from(data, start) matches Some(i) ==> start <= i && i + 3 <= data.len()
            && plausible_triplet(data[i], data[i + 1], data[i + 2]) && forall|j: int|
            #![trigger data[j]]
            start <= j < i ==> !plausible_triplet(data[j], data[j + 1], data[j + 2]),
        first_triplet_from(data, start) is None ==> forall|j: int|
            #![trigger data[j]]
            start <= j && j + 3 <= data.len() ==> !plausible_triplet(data[j], data[j + 1], data[j + 2]),
    decreases data.len() - start,
{
    if start + 3 <= data.len() && !plausible_triplet(data[start], data[start + 1], data[start + 2]) {
        lemma_first_window_from(data, start + 1);
    }
}

/// An input report gives bytes 5, 6 and 7 as the left, right and case levels,
/// each capped at 100 and taken as 0 when the report is shorter; such a
/// status is connected and known.
pub proof fn lemma_input_report_offsets(data: Seq<u8>)
    ensures
        ({
            let s = input_report_status(data);
            let at = |i: int| if i < data.len() {
                if data[i] <= 100 {
                    data[i]
                } else {
                    100u8
                }
            } else {
                0u8
            };
            &&& s.left == Some(at(5))
            &&& s.right == Some(at(6))
            &&& s.case == Some(at(7))
            &&& s.connected && s.known
        }),
{
}

} // verus!
