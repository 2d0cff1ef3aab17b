//! Names of the files and directories the capture commands write, and the
//! one-line descriptions of HID collections they print.
use vstd::prelude::*;

use crate::cli::format::{first_index_of, sanitize_label, sanitized_label, series_file_key};
use crate::numeric::{
    is_radix_digit, lemma_decimal_digits, lemma_decimal_roundtrip, lemma_hex_text_digits,
    lemma_zero_pad_value,
};
use crate::hid::hid_manager::HidDeviceSnapshot;
use crate::text::{
    decimal_chars, hex_text, push_decimal, push_decimal_padded, push_hex, push_signed_decimal,
    signed_decimal_chars, zero_pad, lemma_hex_len_small_k, pow16,
};

verus! {

/// `vid054c_pid0ec2_if5_upff04_u0001`: how a collection's dump files begin.
pub open spec fn dump_prefix_text(d: HidDeviceSnapshot) -> Seq<char> {
    "vid"@ + hex_text(d.vendor_id as nat, 4, false) + "_pid"@ + hex_text(
        d.product_id as nat,
        4,
        false,
    ) + "_if"@ + signed_decimal_chars(d.interface_number as int) + "_up"@ + hex_text(
        d.usage_page as nat,
        4,
        false,
    ) + "_u"@ + hex_text(d.usage as nat, 4, false)
}

pub fn dump_prefix(device: &HidDeviceSnapshot) -> (prefix: String)
    ensures
        prefix@ == dump_prefix_text(*device),
{
    let mut p = String::from_str("vid");
    push_hex(&mut p, device.vendor_id as u64, 4, false);
    p.append("_pid");
    push_hex(&mut p, device.product_id as u64, 4, false);
    p.append("_if");
    push_signed_decimal(&mut p, device.interface_number as i64);
    p.append("_up");
    push_hex(&mut p, device.usage_page as u64, 4, false);
    p.append("_u");
    push_hex(&mut p, device.usage as u64, 4, false);
    p
}

/// `device_<index>_if5_upff04_u0001`: the directory of one collection when
/// several are captured.
pub open spec fn device_dir_text(index: nat, d: HidDeviceSnapshot) -> Seq<char> {
    "device_"@ + decimal_chars(index) + "_if"@ + signed_decimal_chars(d.interface_number as int)
        + "_up"@ + hex_text(d.usage_page as nat, 4, false) + "_u"@ + hex_text(
        d.usage as nat,
        4,
        false,
    )
}

pub fn device_dir_name(index: usize, device: &HidDeviceSnapshot) -> (name: String)
    ensures
        name@ == device_dir_text(index as nat, *device),
{
    let mut n = String::from_str("device_");
    push_decimal(&mut n, index as u128);
    n.append("_if");
    push_signed_decimal(&mut n, device.interface_number as i64);
    n.append("_up");
    push_hex(&mut n, device.usage_page as u64, 4, false);
    n.append("_u");
    push_hex(&mut n, device.usage as u64, 4, false);
    n
}

/// `VID=054C PID=0EC2 IF=5 USAGE_PAGE=FF04 USAGE=0001`.
pub open spec fn device_summary_text(d: HidDeviceSnapshot) -> Seq<char> {
    "VID="@ + hex_text(d.vendor_id as nat, 4, true) + " PID="@ + hex_text(
        d.product_id as nat,
        4,
        true,
    ) + " IF="@ + signed_decimal_chars(d.interface_number as int) + " USAGE_PAGE="@ + hex_text(
        d.usage_page as nat,
        4,
        true,
    ) + " USAGE="@ + hex_text(d.usage as nat, 4, true)
}

pub fn device_summary_line(device: &HidDeviceSnapshot) -> (line: String)
    ensures
        line@ == device_summary_text(*device),
{
    let mut l = String::from_str("VID=");
    push_hex(&mut l, device.vendor_id as u64, 4, true);
    l.append(" PID=");
    push_hex(&mut l, device.product_id as u64, 4, true);
    l.append(" IF=");
    push_signed_decimal(&mut l, device.interface_number as i64);
    l.append(" USAGE_PAGE=");
    push_hex(&mut l, device.usage_page as u64, 4, true);
    l.append(" USAGE=");
    push_hex(&mut l, device.usage as u64, 4, true);
    l
}

/// The `device_info.txt` of a captured collection.
pub open spec fn device_info_content(d: HidDeviceSnapshot) -> Seq<char> {
    "VID="@ + hex_text(d.vendor_id as nat, 4, true) + "\nPID="@ + hex_text(
        d.product_id as nat,
        4,
        true,
    ) + "\nIF="@ + signed_decimal_chars(d.interface_number as int) + "\nUSAGE_PAGE="@ + hex_text(
        d.usage_page as nat,
        4,
        true,
    ) + "\nUSAGE="@ + hex_text(d.usage as nat, 4, true) + "\nPATH="@ + d.path@ + "\n"@
}

pub fn device_info_text(device: &HidDeviceSnapshot) -> (text: String)
    ensures
        text@ == device_info_content(*device),
{
    let mut t = String::from_str("VID=");
    push_hex(&mut t, device.vendor_id as u64, 4, true);
    t.append("\nPID=");
    push_hex(&mut t, device.product_id as u64, 4, true);
    t.append("\nIF=");
    push_signed_decimal(&mut t, device.interface_number as i64);
    t.append("\nUSAGE_PAGE=");
    push_hex(&mut t, device.usage_page as u64, 4, true);
    t.append("\nUSAGE=");
    push_hex(&mut t, device.usage as u64, 4, true);
    t.append("\nPATH=");
    t.append(device.path.as_str());
    t.append("\n");
    t
}

/// `<timestamp>_<sanitized label>`: the directory of one capture run.
pub open spec fn timestamped_text(timestamp_ms: u128, label: Seq<char>) -> Seq<char> {
    decimal_chars(timestamp_ms as nat) + "_"@ + sanitized_label(label)
}

pub fn timestamped_dir_name(timestamp_ms: u128, label: &str) -> (name: String)
    ensures
        name@ == timestamped_text(timestamp_ms, label@),
{
    let mut n = String::new();
    push_decimal(&mut n, timestamp_ms);
    n.append("_");
    let s = sanitize_label(label);
    n.append(s.as_str());
    n
}

/// `feature_<id>.<extension>` with the report ID as two lower-case hex digits.
pub open spec fn feature_file_text(report_id: u8, extension: Seq<char>) -> Seq<char> {
    "feature_"@ + hex_text(report_id as nat, 2, false) + "."@ + extension
}

pub fn feature_file_name(report_id: u8, extension: &str) -> (name: String)
    ensures
        name@ == feature_file_text(report_id, extension@),
{
    let mut n = String::from_str("feature_");
    push_hex(&mut n, report_id as u64, 2, false);
    n.append(".");
    n.append(extension);
    n
}

/// `feature_<id>_<sample>.<extension>`: one sample of a series, the sample
/// index in at least three decimal digits.
pub open spec fn series_file_text(report_id: u8, sample_index: usize, extension: Seq<char>) -> Seq<
    char,
> {
    "feature_"@ + hex_text(report_id as nat, 2, false) + "_"@ + zero_pad(
        decimal_chars(sample_index as nat),
        3,
    ) + "."@ + extension
}

pub fn series_file_name(report_id: u8, sample_index: usize, extension: &str) -> (name: String)
    ensures
        name@ == series_file_text(report_id, sample_index, extension@),
{
    let mut n = String::from_str("feature_");
    push_hex(&mut n, report_id as u64, 2, false);
    n.append("_");
    push_decimal_padded(&mut n, sample_index as u128, 3);
    n.append(".");
    n.append(extension);
    n
}

/// `input_<sample>.<extension>`.
pub open spec fn input_file_text(sample_index: usize, extension: Seq<char>) -> Seq<char> {
    "input_"@ + zero_pad(decimal_chars(sample_index as nat), 3) + "."@ + extension
}

pub fn input_file_name(sample_index: usize, extension: &str) -> (name: String)
    ensures
        name@ == input_file_text(sample_index, extension@),
{
    let mut n = String::from_str("input_");
    push_decimal_padded(&mut n, sample_index as u128, 3);
    n.append(".");
    n.append(extension);
    n
}

/// `<prefix>_<timestamp>_<sample>.bin`: one input report of a dump.
pub open spec fn dump_file_text(prefix: Seq<char>, timestamp_ms: u128, sample_index: usize) -> Seq<
    char,
> {
    prefix + "_"@ + decimal_chars(timestamp_ms as nat) + "_"@ + zero_pad(
        decimal_chars(sample_index as nat),
        3,
    ) + ".bin"@
}

pub fn dump_file_name(prefix: &str, timestamp_ms: u128, sample_index: usize) -> (name: String)
    ensures
        name@ == dump_file_text(prefix@, timestamp_ms, sample_index),
{
    let mut n = String::from_str(prefix);
    n.append("_");
    push_decimal(&mut n, timestamp_ms);
    n.append("_");
    push_decimal_padded(&mut n, sample_index as u128, 3);
    n.append(".bin");
    n
}

/// `<prefix>_<timestamp>.bin`: a descriptor or feature report of a dump.
pub open spec fn named_dump_file_text(prefix: Seq<char>, timestamp_ms: u128) -> Seq<char> {
    prefix + "_"@ + decimal_chars(timestamp_ms as nat) + ".bin"@
}

pub fn named_dump_file_name(prefix: &str, timestamp_ms: u128) -> (name: String)
    ensures
        name@ == named_dump_file_text(prefix@, timestamp_ms),
{
    let mut n = String::from_str(prefix);
    n.append("_");
    push_decimal(&mut n, timestamp_ms);
    n.append(".bin");
    n
}

/// One row of `series_index.csv`: `sample,timestamp_ms,report_id,status,file`.
pub open spec fn series_index_text(
    sample_index: usize,
    timestamp_ms: u128,
    report_id: u8,
    status: Seq<char>,
    file_name: Seq<char>,
) -> Seq<char> {
    decimal_chars(sample_index as nat) + ","@ + decimal_chars(timestamp_ms as nat) + ","@
        + hex_text(report_id as nat, 2, true) + ","@ + status + ","@ + file_name + "\n"@
}

pub fn series_index_line(
    sample_index: usize,
    timestamp_ms: u128,
    report_id: u8,
    status: &str,
    file_name: &str,
) -> (line: String)
    ensures
        line@ == series_index_text(sample_index, timestamp_ms, report_id, status@, file_name@),
{
    let mut l = String::new();
    push_decimal(&mut l, sample_index as u128);
    l.append(",");
    push_decimal(&mut l, timestamp_ms);
    l.append(",");
    push_hex(&mut l, report_id as u64, 2, true);
    l.append(",");
    l.append(status);
    l.append(",");
    l.append(file_name);
    l.append("\n");
    l
}

/// The name given to a sample of a feature series is read back by
/// `parse_feature_series_file_name` as the same report ID and sample index.
pub proof fn lemma_series_file_name_roundtrip(report_id: u8, sample_index: usize)
    ensures
        series_file_key(series_file_text(report_id, sample_index, "bin"@)) == Some(
            (report_id, sample_index),
        ),
{
    reveal_strlit("feature_");
    reveal_strlit("_");
    reveal_strlit(".");
    reveal_strlit("bin");
    reveal_strlit(".bin");
    let h = hex_text(report_id as nat, 2, false);
    let p = zero_pad(decimal_chars(sample_index as nat), 3);
    lemma_hex_text_digits(report_id as nat, 2, false);
    reveal_with_fuel(pow16, 3);
    lemma_hex_len_small_k(report_id as nat, 1, false);
    assert(h.len() == 2);
    lemma_decimal_roundtrip(sample_index as nat);
    lemma_zero_pad_value(decimal_chars(sample_index as nat), 3, 10);
    lemma_decimal_digits(sample_index as nat);
    assert(p.len() >= 3);
    let name = series_file_text(report_id, sample_index, "bin"@);
    assert(name =~= "feature_"@ + h + "_"@ + p + ".bin"@);
    let n = name.len();
    assert(n == 8 + 2 + 1 + p.len() + 4);
    assert(name.subrange(n - 4, n as int) =~= ".bin"@);
    assert(name.take(8) =~= "feature_"@);
    let rest = name.subrange(8, n - 4);
    assert(rest =~= h + "_"@ + p);
    assert(rest[2] == '_');
    assert(rest[0] != '_' && rest[1] != '_') by {
        assert(is_radix_digit(h[0], 16));
        assert(is_radix_digit(h[1], 16));
    }
    assert(rest.contains('_'));
    assert(first_index_of(rest, '_') == 2) by {
        let r1 = rest.drop_first();
        let r2 = r1.drop_first();
        assert(r1[0] == rest[1]);
        assert(r2[0] == rest[2]);
        assert(first_index_of(r2, '_') == 0);
        assert(first_index_of(r1, '_') == 1);
    }
    assert(rest.take(2) =~= h);
    assert(rest.skip(3) =~= p);
    assert(h[0] != '+') by {
        assert(is_radix_digit(h[0], 16));
    }
    assert(p[0] != '+') by {
        assert(is_radix_digit(p[0], 10));
    }
}

/// The `series_info.txt` of a feature-series capture.
pub open spec fn series_info_content(
    label: Seq<char>,
    samples: usize,
    interval_ms: u64,
    all_collections: bool,
) -> Seq<char> {
    "label="@ + label + "\nsamples="@ + decimal_chars(samples as nat) + "\ninterval_ms="@
        + decimal_chars(interval_ms as nat) + "\nall_collections="@ + (if all_collections {
        "true"@
    } else {
        "false"@
    }) + "\n"@
}

pub fn series_info_text(label: &str, samples: usize, interval_ms: u64, all_collections: bool) -> (text: String)
    ensures
        text@ == series_info_content(label@, samples, interval_ms, all_collections),
{
    let mut t = String::from_str("label=");
    t.append(label);
    t.append("\nsamples=");
    push_decimal(&mut t, samples as u128);
    t.append("\ninterval_ms=");
    push_decimal(&mut t, interval_ms as u128);
    t.append("\nall_collections=");
    if all_collections {
        t.append("true");
    } else {
        t.append("false");
    }
    t.append("\n");
    t
}

} // verus!
