//! The battery query that INZONE Hub sends on the dongle's vendor collection
//! (usage page 0xFF04, usage 0x0001, report ID 0x02), and its response.
use vstd::prelude::*;

use crate::config::settings::Settings;
use crate::hid::hid_manager::HidDeviceFilter;
use crate::models::battery_status::BatteryStatus;

verus! {

pub const HUB_USAGE_PAGE: u16 = 0xFF04;

pub const HUB_USAGE: u16 = 0x0001;

pub const HUB_REPORT_ID: u8 = 0x02;

pub const HUB_REPORT_SIZE: usize = 64;

pub const HUB_BATTERY_SUBCOMMAND: u8 = 0x04;

/// Most reports gathered while waiting for one answer.
pub const HUB_MAX_REPORTS_PER_READ: usize = 16;

/// Most stale reports drained before a request is sent.
pub const HUB_FLUSH_READS: usize = 8;

const HUB_REQUEST_COMMAND: u8 = 0x41;

const HUB_RESPONSE_COMMAND: u8 = 0x14;

const HUB_RESPONSE_KIND: u8 = 0x10;

const HUB_REQUEST_CHECKSUM_BASE: u8 = 0x9B;

const HUB_REQUEST_KIND: u8 = 0x01;

const HUB_LEFT_OFFSET: usize = 0x0E;

const HUB_RIGHT_OFFSET: usize = 0x10;

const HUB_CASE_OFFSET: usize = 0x12;

/// The levels of one battery response, with the report it came from.
#[derive(Debug, Clone, PartialEq, Eq)]
pub struct HubBatteryReport {
    pub left: Option<u8>,
    pub right: Option<u8>,
    pub case: Option<u8>,
    pub raw: Vec<u8>,
}

/// A level byte: 0..=100 is a percentage; anything else (0xFF in practice) is unavailable.
pub open spec fn decoded_percent(value: u8) -> Option<u8> {
    if value <= 100 {
        Some(value)
    } else {
        None
    }
}

/// The checksum-like byte of a request: `0x9B + subcommand + sequence`, modulo 256.
pub open spec fn request_checksum(subcommand: u8, sequence: u8) -> u8 {
    ((0x9B + subcommand + sequence) % 256) as u8
}

/// The 64-byte request `02 0C 01 00 FC 08 96 C3 41 <sub> 01 <seq> 00 <checksum> 00 ...`.
pub open spec fn hub_request(subcommand: u8, sequence: u8) -> Seq<u8> {
    seq![
        0x02u8,
        0x0C,
        0x01,
        0x00,
        0xFC,
        0x08,
        0x96,
        0xC3,
        0x41,
        subcommand,
        0x01,
        sequence,
        0x00,
        request_checksum(subcommand, sequence),
    ] + Seq::new(50, |i: int| 0u8)
}

/// A report is a battery response when it reaches the case byte (0x12) and
/// carries report ID 0x02, command 0x14 and subcommand 0x04.
pub open spec fn is_battery_response(data: Seq<u8>) -> bool {
    &&& data.len() > 0x12
    &&& data[0] == 0x02
    &&& data[8] == 0x14
    &&& data[9] == 0x04
}

/// A battery response that answers the request with `sequence`: response kind
/// 0x10 at byte 0x0A and the sequence at byte 0x0B.
pub open spec fn answers_sequence(data: Seq<u8>, sequence: u8) -> bool {
    &&& is_battery_response(data)
    &&& data[10] == 0x10
    &&& data[11] == sequence
}

impl HubBatteryReport {
    /// This report holds the levels decoded from `data`, and `data` itself.
    pub open spec fn decodes(self, data: Seq<u8>) -> bool {
        &&& self.left == decoded_percent(data[0x0E])
        &&& self.right == decoded_percent(data[0x10])
        &&& self.case == decoded_percent(data[0x12])
        &&& self.raw@ == data
    }

    pub fn to_battery_status(&self) -> (s: BatteryStatus)
        ensures
            s == BatteryStatus::from_levels(self.left, self.right, self.case),
    {
        BatteryStatus::with_optional_levels(self.left, self.right, self.case)
    }
}

/// The filter for the collection that answers battery queries: the vendor,
/// product and interface of the settings, on usage page 0xFF04, usage 0x0001.
pub fn hub_device_filter(settings: &Settings) -> (f: HidDeviceFilter)
    ensures
        f == (HidDeviceFilter {
            vendor_id: Some(settings.vendor_id),
            product_id: settings.product_id,
            interface_number: settings.interface_number,
            usage_page: Some(HUB_USAGE_PAGE),
            usage: Some(HUB_USAGE),
        }),
{
    HidDeviceFilter {
        vendor_id: Some(settings.vendor_id),
        product_id: settings.product_id,
        interface_number: settings.interface_number,
        usage_page: Some(HUB_USAGE_PAGE),
        usage: Some(HUB_USAGE),
    }
}

pub fn build_hub_request(subcommand: u8, sequence: u8) -> (request: Vec<u8>)
    ensures
        request@ == hub_request(subcommand, sequence),
        request@.len() == HUB_REPORT_SIZE,
{
    let mut request: Vec<u8> = Vec::new();
    request.push(HUB_REPORT_ID);
    request.push(0x0C);
    request.push(0x01);
    request.push(0x00);
    request.push(0xFC);
    request.push(0x08);
    request.push(0x96);
    request.push(0xC3);
    request.push(HUB_REQUEST_COMMAND);
    request.push(subcommand);
    request.push(HUB_REQUEST_KIND);
    request.push(sequence);
    request.push(0x00);
    request.push(hub_request_checksum(subcommand, sequence));
    let ghost header = request@;
    while request.len() < HUB_REPORT_SIZE
        invariant
            14 <= request@.len() <= HUB_REPORT_SIZE,
            request@ =~= header + Seq::new((request@.len() - 14) as nat, |i: int| 0u8),
        decreases HUB_REPORT_SIZE - request.len(),
    {
        request.push(0);
    }
    assert(request@ =~= hub_request(subcommand, sequence));
    request
}

/// Decodes a battery response; `None` for any other report.
pub fn parse_hub_battery_report(data: &[u8]) -> (report: Option<HubBatteryReport>)
    ensures
        report is Some <==> is_battery_response(data@),
        report matches Some(r) ==> r.decodes(data@),
{
    if data.len() <= HUB_CASE_OFFSET {
        return None;
    }
    if data[0] != HUB_REPORT_ID || data[8] != HUB_RESPONSE_COMMAND || data[9]
        != HUB_BATTERY_SUBCOMMAND {
        return None;
    }
    Some(
        HubBatteryReport {
            left: decode_percent(data[HUB_LEFT_OFFSET]),
            right: decode_percent(data[HUB_RIGHT_OFFSET]),
            case: decode_percent(data[HUB_CASE_OFFSET]),
            raw: vstd::slice::slice_to_vec(data),
        },
    )
}

/// Decodes a battery response only when it answers the request with `sequence`.
pub fn parse_hub_battery_report_for_sequence(data: &[u8], sequence: u8) -> (report: Option<
    HubBatteryReport,
>)
    ensures
        report is Some <==> answers_sequence(data@, sequence),
        report matches Some(r) ==> r.decodes(data@),
{
    let report = parse_hub_battery_report(data);
    match report {
        Some(r) => {
            if data[10] == HUB_RESPONSE_KIND && data[11] == sequence {
                Some(r)
            } else {
                None
            }
        },
        None => None,
    }
}

/// Index of the first report that answers `sequence`.
pub open spec fn first_answer(reports: Seq<Seq<u8>>, sequence: u8) -> Option<int>
    decreases reports.len(),
{
    if reports.len() == 0 {
        None
    } else {
        match first_answer(reports.drop_last(), sequence) {
            Some(i) => Some(i),
            None => if answers_sequence(reports.last(), sequence) {
                Some(reports.len() - 1)
            } else {
                None
            },
        }
    }
}

pub open spec fn report_views(reports: Seq<Vec<u8>>) -> Seq<Seq<u8>> {
    reports.map_values(|r: Vec<u8>| r@)
}

/// Chooses among the reports read after a battery request with `sequence`:
/// the first one that answers it. Reports that answer another request, or
/// none, are never taken for the answer: without one the result is `None`.
pub fn select_hub_battery_report(reports: &Vec<Vec<u8>>, sequence: u8) -> (report: Option<
    HubBatteryReport,
>)
    ensures
        report is Some <==> first_answer(report_views(reports@), sequence) is Some,
        report matches Some(r) ==> r.decodes(
            reports@[first_answer(report_views(reports@), sequence)->0]@,
        ),
{
    let ghost views = report_views(reports@);
    let mut i: usize = 0;
    while i < reports.len()
        invariant
            i <= reports.len(),
            views == report_views(reports@),
            first_answer(views.take(i as int), sequence) is None,
        decreases reports.len() - i,
    {
        assert(views.take(i + 1).drop_last() =~= views.take(i as int));
        assert(views.take(i + 1).last() == reports@[i as int]@);
        let report = &reports[i];
        if let Some(parsed) = parse_hub_battery_report_for_sequence(report.as_slice(), sequence) {
            proof {
                lemma_first_answer_extends(views, i as int, sequence);
            }
            return Some(parsed);
        }
        i = i + 1;
    }
    assert(views.take(i as int) =~= views);
    None
}

proof fn lemma_first_answer_extends(views: Seq<Seq<u8>>, i: int, sequence: u8)
    requires
        0 <= i < views.len(),
        first_answer(views.take(i), sequence) is None,
        answers_sequence(views[i], sequence),
    ensures
        first_answer(views, sequence) == Some(i),
    decreases views.len() - i,
{
    assert(views.take(i + 1).drop_last() =~= views.take(i));
    if i + 1 < views.len() {
        lemma_first_answer_prefix(views, i + 1, sequence);
    } else {
        assert(views.take(i + 1) =~= views);
    }
}

/// Once a prefix holds an answer, longer prefixes keep the same first answer.
proof fn lemma_first_answer_prefix(views: Seq<Seq<u8>>, n: int, sequence: u8)
    requires
        0 <= n <= views.len(),
        first_answer(views.take(n), sequence) is Some,
    ensures
        first_answer(views, sequence) == first_answer(views.take(n), sequence),
    decreases views.len() - n,
{
    if n < views.len() {
        assert(views.take(n + 1).drop_last() =~= views.take(n));
        lemma_first_answer_prefix(views, n + 1, sequence);
    } else {
        assert(views.take(n) =~= views);
    }
}

fn hub_request_checksum(subcommand: u8, sequence: u8) -> (c: u8)
    ensures
        c == request_checksum(subcommand, sequence),
{
    HUB_REQUEST_CHECKSUM_BASE.wrapping_add(subcommand).wrapping_add(sequence)
}

fn decode_percent(value: u8) -> (p: Option<u8>)
    ensures
        p == decoded_percent(value),
{
    if value <= 100 {
        Some(value)
    } else {
        None
    }
}

/// A report that answers a request is a battery response, and the query
/// settles on an answer no later than it: a report that answers the request
/// is always found.
pub proof fn lemma_answer_is_battery_response(reports: Seq<Seq<u8>>, sequence: u8, i: int)
    requires
        0 <= i < reports.len(),
        answers_sequence(reports[i], sequence),
    ensures
        is_battery_response(reports[i]),
        first_answer(reports, sequence) is Some,
        first_answer(reports, sequence)->0 <= i,
        answers_sequence(reports[first_answer(reports, sequence)->0], sequence),
{
    lemma_first_answer_exists(reports, sequence, i);
    lemma_first_answer_answers(reports, sequence);
}

/// The query settles on a report only when that report answers the request:
/// a stale or unrelated battery report is never taken.
pub proof fn lemma_only_answers_are_chosen(reports: Seq<Seq<u8>>, sequence: u8)
    ensures
        first_answer(reports, sequence) is Some <==> exists|i: int|
            0 <= i < reports.len() && answers_sequence(#[trigger] reports[i], sequence),
        first_answer(reports, sequence) matches Some(k) ==> 0 <= k < reports.len()
            && answers_sequence(reports[k], sequence) && forall|j: int|
            0 <= j < k ==> !answers_sequence(#[trigger] reports[j], sequence),
    decreases reports.len(),
{
    if reports.len() > 0 {
        let prev = reports.drop_last();
        lemma_only_answers_are_chosen(prev, sequence);
        assert forall|i: int| 0 <= i < prev.len() implies prev[i] == reports[i] by {}
        if first_answer(reports, sequence) is None {
            assert forall|i: int| 0 <= i < reports.len() implies !answers_sequence(
                #[trigger] reports[i],
                sequence,
            ) by {
                if i < prev.len() {
                    assert(prev[i] == reports[i]);
                }
            }
        } else {
            let k = first_answer(reports, sequence)->0;
            assert(answers_sequence(reports[k], sequence));
            if first_answer(prev, sequence) is None {
                assert forall|j: int| 0 <= j < k implies !answers_sequence(
                    #[trigger] reports[j],
                    sequence,
                ) by {
                    assert(prev[j] == reports[j]);
                }
            }
        }
    }
}

proof fn lemma_first_answer_exists(reports: Seq<Seq<u8>>, sequence: u8, i: int)
    requires
        0 <= i < reports.len(),
        answers_sequence(reports[i], sequence),
    ensures
        first_answer(reports, sequence) is Some,
        first_answer(reports, sequence)->0 <= i,
    decreases reports.len(),
{
    if i < reports.len() - 1 {
        assert(reports.drop_last()[i] == reports[i]);
        lemma_first_answer_exists(reports.drop_last(), sequence, i);
    } else if first_answer(reports.drop_last(), sequence) is Some {
        lemma_first_answer_answers(reports.drop_last(), sequence);
    }
}

proof fn lemma_first_answer_answers(reports: Seq<Seq<u8>>, sequence: u8)
    requires
        first_answer(reports, sequence) is Some,
    ensures
        0 <= first_answer(reports, sequence)->0 < reports.len(),
        answers_sequence(reports[first_answer(reports, sequence)->0], sequence),
    decreases reports.len(),
{
    if first_answer(reports.drop_last(), sequence) is Some {
        lemma_first_answer_answers(reports.drop_last(), sequence);
        let k = first_answer(reports.drop_last(), sequence)->0;
        assert(reports.drop_last()[k] == reports[k]);
    }
}

/// A request echoed back is never taken for a battery response: its command
/// byte is 0x41, not 0x14.
pub proof fn lemma_request_is_not_a_response(subcommand: u8, sequence: u8)
    ensures
        !is_battery_response(hub_request(subcommand, sequence)),
        hub_request(subcommand, sequence).len() == 64,
        hub_request(subcommand, sequence)[13] == request_checksum(subcommand, sequence),
{
}

/// Whether gathering the reports that follow a request goes on with another
/// read: only while the deadline has not passed and fewer than
/// `HUB_MAX_REPORTS_PER_READ` reports were kept.
pub fn keep_gathering(deadline_passed: bool, gathered: usize) -> (go: bool)
    ensures
        go == (!deadline_passed && gathered < HUB_MAX_REPORTS_PER_READ),
{
    !deadline_passed && gathered < HUB_MAX_REPORTS_PER_READ
}

/// What one read of the hub collection gave while draining stale input.
#[derive(Debug, Clone, Copy, PartialEq, Eq, Structural)]
pub enum DrainRead {
    Report,
    Nothing,
    Failed,
}

/// Whether draining goes on after `reads_done` reads, the last of which gave
/// `last`: only after a report, and for at most `HUB_FLUSH_READS` reads.
pub fn keep_draining(reads_done: usize, last: DrainRead) -> (go: bool)
    ensures
        go == (last == DrainRead::Report && reads_done < HUB_FLUSH_READS),
{
    match last {
        DrainRead::Report => reads_done < HUB_FLUSH_READS,
        _ => false,
    }
}

/// How long to gather reports after a request: the timeout, but at least 1 ms.
pub fn hub_read_window_ms(timeout_ms: i32) -> (window: u64)
    ensures
        window == if timeout_ms >= 1 {
            timeout_ms as int
        } else {
            1
        },
{
    if timeout_ms >= 1 {
        timeout_ms as u64
    } else {
        1
    }
}

/// The timeout for one read, from the time left: between 1 ms and `i32::MAX`.
pub fn hub_read_timeout_ms(remaining_ms: u128) -> (timeout: i32)
    ensures
        timeout == if remaining_ms < 1 {
            1
        } else if remaining_ms > i32::MAX {
            i32::MAX as int
        } else {
            remaining_ms as int
        },
{
    if remaining_ms < 1 {
        1
    } else if remaining_ms > i32::MAX as u128 {
        i32::MAX
    } else {
        remaining_ms as i32
    }
}

/// The battery request, byte by byte, as the protocol documents it: report ID
/// 0x02, the fixed header `0C 01 00 FC 08 96 C3`, command 0x41, the
/// subcommand, request kind 0x01, the sequence, 0x00, then
/// `0x9B + subcommand + sequence` modulo 256, and zeros up to 64 bytes.
pub proof fn lemma_request_layout(subcommand: u8, sequence: u8)
    ensures
        ({
            let q = hub_request(subcommand, sequence);
            &&& q.len() == 64
            &&& q[0] == 0x02 && q[1] == 0x0C && q[2] == 0x01 && q[3] == 0x00
            &&& q[4] == 0xFC && q[5] == 0x08 && q[6] == 0x96 && q[7] == 0xC3
            &&& q[8] == 0x41 && q[9] == subcommand && q[10] == 0x01 && q[11] == sequence
            &&& q[12] == 0x00
            &&& q[13] as int == (0x9B + subcommand as int + sequence as int) % 256
            &&& forall|i: int| 14 <= i < 64 ==> #[trigger] q[i] == 0
        }),
{
}

/// A report is a battery response exactly when it has at least 19 bytes,
/// report ID 0x02, command 0x14 at byte 8 and subcommand 0x04 at byte 9; it
/// answers the request with `sequence` when, besides, byte 10 is 0x10 and
/// byte 11 is the sequence. Its left, right and case levels are bytes 0x0E,
/// 0x10 and 0x12, each a percentage when at most 100 and unavailable above.
pub proof fn lemma_battery_response_fields(
    data: Seq<u8>,
    sequence: u8,
    report: HubBatteryReport,
)
    ensures
        is_battery_response(data) <==> (data.len() >= 19 && data[0] == 0x02 && data[8] == 0x14
            && data[9] == 0x04),
        answers_sequence(data, sequence) <==> (is_battery_response(data) && data[10] == 0x10
            && data[11] == sequence),
        is_battery_response(data) && report.decodes(data) ==> {
            &&& report.left == (if data[14] <= 100 {
                Some(data[14])
            } else {
                None
            })
            &&& report.right == (if data[16] <= 100 {
                Some(data[16])
            } else {
                None
            })
            &&& report.case == (if data[18] <= 100 {
                Some(data[18])
            } else {
                None
            })
            &&& report.raw@ == data
        },
{
}

} // verus!
