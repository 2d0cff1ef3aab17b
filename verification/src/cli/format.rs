//! Text the investigation commands print and the names they give files.
use vstd::prelude::*;

use crate::hid::inzone_hub::{
    answers_sequence, decoded_percent, is_battery_response, parse_hub_battery_report,
    parse_hub_battery_report_for_sequence,
};
use crate::numeric::{parse_unsigned_chars, parsed_unsigned};
use crate::services::battery_service::{next_hub_sequence, sequence_after};
use crate::text::{
    decimal_chars, hex_text, push_char, push_decimal, push_hex, str_chars,
};

verus! {

/// Bytes as two-digit upper-case hexadecimal, separated by `sep`.
pub open spec fn hex_bytes_text(data: Seq<u8>, sep: Seq<char>) -> Seq<char>
    decreases data.len(),
{
    if data.len() == 0 {
        seq![]
    } else if data.len() == 1 {
        hex_text(data[0] as nat, 2, true)
    } else {
        hex_bytes_text(data.drop_last(), sep) + sep + hex_text(data.last() as nat, 2, true)
    }
}

/// Appends the bytes as two-digit upper-case hexadecimal, separated by `sep`.
pub fn push_hex_list(text: &mut String, data: &[u8], sep: &str)
    ensures
        final(text)@ == old(text)@ + hex_bytes_text(data@, sep@),
{
    let ghost start = text@;
    let mut i: usize = 0;
    while i < data.len()
        invariant
            i <= data@.len(),
            text@ == start + hex_bytes_text(data@.take(i as int), sep@),
        decreases data.len() - i,
    {
        let ghost before = text@;
        if i > 0 {
            text.append(sep);
        }
        push_hex(text, data[i] as u64, 2, true);
        proof {
            let t = data@.take(i + 1);
            assert(t.drop_last() =~= data@.take(i as int));
            if i == 0 {
                assert(data@.take(0) =~= seq![]);
                assert(text@ =~= start + hex_bytes_text(t, sep@));
            } else {
                assert(text@ =~= start + (hex_bytes_text(data@.take(i as int), sep@) + sep@
                    + hex_text(data@[i as int] as nat, 2, true)));
            }
        }
        i = i + 1;
    }
    assert(data@.take(i as int) =~= data@);
}

/// The bytes as two-digit upper-case hexadecimal, separated by `sep`.
pub fn hex_list(data: &[u8], sep: &str) -> (text: String)
    ensures
        text@ == hex_bytes_text(data@, sep@),
{
    let mut text = String::new();
    push_hex_list(&mut text, data, sep);
    assert(text@ =~= hex_bytes_text(data@, sep@));
    text
}

/// A hex dump: the bytes separated by single spaces.
pub fn to_hex(data: &[u8]) -> (text: String)
    ensures
        text@ == hex_bytes_text(data@, " "@),
{
    hex_list(data, " ")
}

/// `0xAB (171)` for a byte, `-` for none.
pub open spec fn optional_byte_text(byte: Option<u8>) -> Seq<char> {
    match byte {
        Some(b) => "0x"@ + hex_text(b as nat, 2, true) + " ("@ + decimal_chars(b as nat) + ")"@,
        None => "-"@,
    }
}

pub fn format_optional_byte(byte: Option<u8>) -> (text: String)
    ensures
        text@ == optional_byte_text(byte),
{
    match byte {
        Some(b) => {
            let mut text = String::from_str("0x");
            push_hex(&mut text, b as u64, 2, true);
            text.append(" (");
            push_decimal(&mut text, b as u128);
            text.append(")");
            text
        },
        None => String::from_str("-"),
    }
}

/// `85%` for a level, `unavailable` for none.
pub open spec fn optional_percent_text(value: Option<u8>) -> Seq<char> {
    match value {
        Some(p) => decimal_chars(p as nat) + "%"@,
        None => "unavailable"@,
    }
}

pub fn format_optional_percent(value: Option<u8>) -> (text: String)
    ensures
        text@ == optional_percent_text(value),
{
    match value {
        Some(p) => {
            let mut text = String::new();
            push_decimal(&mut text, p as u128);
            text.append("%");
            assert(text@ =~= optional_percent_text(value));
            text
        },
        None => String::from_str("unavailable"),
    }
}

/// The sequence number after `sequence`, skipping 0.
pub fn next_sequence(sequence: u8) -> (next: u8)
    ensures
        next == sequence_after(sequence),
        next != 0,
{
    next_hub_sequence(sequence)
}

/// Characters allowed in a directory label: ASCII letters and digits, `-` and `_`.
pub open spec fn is_label_char(c: char) -> bool {
    ('a' <= c && c <= 'z') || ('A' <= c && c <= 'Z') || ('0' <= c && c <= '9') || c == '-' || c
        == '_'
}

/// A label with every other character replaced by `_`; `state` when empty.
pub open spec fn sanitized_label(label: Seq<char>) -> Seq<char> {
    if label.len() == 0 {
        "state"@
    } else {
        label.map_values(
            |c: char|
                if is_label_char(c) {
                    c
                } else {
                    '_'
                },
        )
    }
}

pub fn sanitize_label(label: &str) -> (sanitized: String)
    ensures
        sanitized@ == sanitized_label(label@),
{
    let chars = str_chars(label);
    if chars.len() == 0 {
        return String::from_str("state");
    }
    let mut out = String::new();
    let mut i: usize = 0;
    while i < chars.len()
        invariant
            i <= chars@.len(),
            chars@ == label@,
            out@ =~= chars@.take(i as int).map_values(
                |c: char|
                    if is_label_char(c) {
                        c
                    } else {
                        '_'
                    },
            ),
        decreases chars.len() - i,
    {
        let c = chars[i];
        let keep = ('a' <= c && c <= 'z') || ('A' <= c && c <= 'Z') || ('0' <= c && c <= '9') || c
            == '-' || c == '_';
        if keep {
            push_char(&mut out, c);
        } else {
            push_char(&mut out, '_');
        }
        i = i + 1;
        assert(out@ =~= chars@.take(i as int).map_values(
            |c: char|
                if is_label_char(c) {
                    c
                } else {
                    '_'
                },
        ));
    }
    assert(chars@.take(i as int) =~= chars@);
    out
}

/// `0x0012` for a single offset, `0x0010-0x0013` for a run.
pub open spec fn range_text(start: nat, end: nat) -> Seq<char> {
    if start == end {
        "0x"@ + hex_text(start, 4, true)
    } else {
        "0x"@ + hex_text(start, 4, true) + "-0x"@ + hex_text(end, 4, true)
    }
}

pub fn format_range(start: usize, end: usize) -> (text: String)
    ensures
        text@ == range_text(start as nat, end as nat),
{
    let mut text = String::from_str("0x");
    push_hex(&mut text, start as u64, 4, true);
    if start != end {
        text.append("-0x");
        push_hex(&mut text, end as u64, 4, true);
    }
    text
}

/// The runs of consecutive offsets (each one more than the one before), as
/// (first, last) pairs, in order.
pub open spec fn offset_runs(offsets: Seq<usize>) -> Seq<(nat, nat)>
    decreases offsets.len(),
{
    if offsets.len() == 0 {
        seq![]
    } else {
        let before = offset_runs(offsets.drop_last());
        let x = offsets.last() as nat;
        if before.len() > 0 && x == before.last().1 + 1 {
            before.update(before.len() - 1, (before.last().0, x))
        } else {
            before.push((x, x))
        }
    }
}

/// The runs written with `range_text`, separated by `, `.
pub open spec fn runs_text(runs: Seq<(nat, nat)>) -> Seq<char>
    decreases runs.len(),
{
    if runs.len() == 0 {
        seq![]
    } else if runs.len() == 1 {
        range_text(runs[0].0, runs[0].1)
    } else {
        runs_text(runs.drop_last()) + ", "@ + range_text(runs.last().0, runs.last().1)
    }
}

/// `-` for no offsets, otherwise the runs of consecutive offsets.
pub open spec fn offset_ranges_text(offsets: Seq<usize>) -> Seq<char> {
    if offsets.len() == 0 {
        "-"@
    } else {
        runs_text(offset_runs(offsets))
    }
}

pub fn format_offset_ranges(offsets: &[usize]) -> (text: String)
    ensures
        text@ == offset_ranges_text(offsets@),
{
    if offsets.len() == 0 {
        return String::from_str("-");
    }
    let mut text = String::new();
    let mut start = offsets[0];
    let mut previous = offsets[0];
    let ghost mut closed: Seq<(nat, nat)> = seq![];
    let mut have_closed = false;
    assert(offsets@.take(1).drop_last() =~= seq![]);
    assert(offset_runs(Seq::<usize>::empty()) =~= seq![]);
    assert(offsets@.take(1).last() == start);
    assert(offset_runs(offsets@.take(1)) =~= closed.push((start as nat, previous as nat)));
    let mut i: usize = 1;
    while i < offsets.len()
        invariant
            1 <= i <= offsets@.len(),
            offset_runs(offsets@.take(i as int)) == closed.push((start as nat, previous as nat)),
            text@ == runs_text(closed),
            have_closed == (closed.len() > 0),
        decreases offsets.len() - i,
    {
        let offset = offsets[i];
        let ghost t = offsets@.take(i + 1);
        assert(t.drop_last() =~= offsets@.take(i as int));
        if previous < usize::MAX && offset == previous + 1 {
            previous = offset;
            assert(offset_runs(t) =~= closed.push((start as nat, previous as nat)));
        } else {
            if have_closed {
                text.append(", ");
            }
            let range = format_range(start, previous);
            text.append(range.as_str());
            proof {
                let new_closed = closed.push((start as nat, previous as nat));
                assert(new_closed.drop_last() =~= closed);
                assert(text@ =~= runs_text(new_closed));
                closed = new_closed;
            }
            have_closed = true;
            start = offset;
            previous = offset;
            assert(offset_runs(t) =~= closed.push((start as nat, previous as nat)));
        }
        i = i + 1;
    }
    let ghost final_runs = closed.push((start as nat, previous as nat));
    if have_closed {
        text.append(", ");
    }
    let range = format_range(start, previous);
    text.append(range.as_str());
    assert(offsets@.take(i as int) =~= offsets@);
    assert(final_runs.drop_last() =~= closed);
    assert(text@ =~= runs_text(final_runs));
    text
}

/// `feature_<id>_<sample>.bin`: the report ID in hexadecimal and the sample
/// index in decimal, split at the first `_` after `feature_`.
pub open spec fn series_file_fields(name: Seq<char>) -> Option<(Seq<char>, Seq<char>)> {
    if name.len() < 12 || name.subrange(name.len() - 4, name.len() as int) != ".bin"@
        || name.take(8) != "feature_"@ {
        None
    } else {
        let rest = name.subrange(8, name.len() - 4);
        if !rest.contains('_') {
            None
        } else {
            let k = first_index_of(rest, '_');
            Some((rest.take(k), rest.skip(k + 1)))
        }
    }
}

/// Position of the first `c` in `s` (`s.len()` when absent).
pub open spec fn first_index_of(s: Seq<char>, c: char) -> int
    decreases s.len(),
{
    if s.len() == 0 {
        0
    } else if s[0] == c {
        0
    } else {
        1 + first_index_of(s.drop_first(), c)
    }
}

/// The report ID and sample index named by a feature-series file.
pub open spec fn series_file_key(name: Seq<char>) -> Option<(u8, usize)> {
    match series_file_fields(name) {
        Some((id, index)) => match (
            parsed_unsigned(id, 16, 0xFF),
            parsed_unsigned(index, 10, usize::MAX as nat),
        ) {
            (Some(r), Some(s)) => Some((r as u8, s as usize)),
            _ => None,
        },
        None => None,
    }
}

proof fn lemma_first_index_of(s: Seq<char>, c: char)
    ensures
        0 <= first_index_of(s, c) <= s.len(),
        forall|j: int| 0 <= j < first_index_of(s, c) ==> s[j] != c,
        first_index_of(s, c) < s.len() ==> s[first_index_of(s, c)] == c,
        s.contains(c) <==> first_index_of(s, c) < s.len(),
    decreases s.len(),
{
    if s.len() > 0 && s[0] != c {
        lemma_first_index_of(s.drop_first(), c);
        assert forall|j: int| 0 <= j < first_index_of(s, c) implies s[j] != c by {
            if j > 0 {
                assert(s[j] == s.drop_first()[j - 1]);
            }
        }
        if s.contains(c) {
            let k = choose|k: int| 0 <= k < s.len() && s[k] == c;
            assert(s.drop_first()[k - 1] == c);
        }
        if first_index_of(s, c) < s.len() {
            assert(s.drop_first()[first_index_of(s, c) - 1] == c);
        }
    }
}

pub fn parse_feature_series_file_name(file_name: &str) -> (key: Option<(u8, usize)>)
    ensures
        key == series_file_key(file_name@),
{
    let name = str_chars(file_name);
    let n = name.len();
    if n < 12 {
        return None;
    }
    if !(name[n - 4] == '.' && name[n - 3] == 'b' && name[n - 2] == 'i' && name[n - 1] == 'n') {
        proof {
            reveal_strlit(".bin");
            assert(name@.subrange(n - 4, n as int) != ".bin"@) by {
                if name@.subrange(n - 4, n as int) == ".bin"@ {
                    assert(name@.subrange(n - 4, n as int)[0] == name@[n - 4]);
                    assert(name@.subrange(n - 4, n as int)[1] == name@[n - 3]);
                    assert(name@.subrange(n - 4, n as int)[2] == name@[n - 2]);
                    assert(name@.subrange(n - 4, n as int)[3] == name@[n - 1]);
                }
            }
        }
        return None;
    }
    proof {
        reveal_strlit(".bin");
        assert(name@.subrange(n - 4, n as int) =~= ".bin"@);
    }
    let mut p: usize = 0;
    let prefix = str_chars("feature_");
    proof {
        reveal_strlit("feature_");
    }
    while p < 8
        invariant
            p <= 8,
            n == name@.len(),
            n >= 12,
            prefix@ == "feature_"@,
            prefix@.len() == 8,
            name@ == file_name@,
            name@.subrange(n - 4, n as int) == ".bin"@,
            forall|j: int| 0 <= j < p ==> name@[j] == prefix@[j],
        decreases 8 - p,
    {
        if name[p] != prefix[p] {
            assert(name@.take(8)[p as int] != "feature_"@[p as int]);
            assert(name@.take(8) != "feature_"@);
            assert(series_file_fields(file_name@) is None);
            return None;
        }
        p = p + 1;
    }
    assert(name@.take(8) =~= "feature_"@);
    let ghost rest = name@.subrange(8, n - 4);
    let mut k: usize = 8;
    while k < n - 4 && name[k] != '_'
        invariant
            8 <= k <= n - 4,
            n == name@.len(),
            n >= 12,
            rest == name@.subrange(8, n - 4),
            forall|j: int| 8 <= j < k ==> name@[j] != '_',
        decreases n - 4 - k,
    {
        k = k + 1;
    }
    proof {
        lemma_first_index_of(rest, '_');
        let f = first_index_of(rest, '_');
        if k < n - 4 {
            assert(rest[k - 8] == '_');
            if f < k - 8 {
                assert(rest[f] == name@[f + 8]);
            }
            assert(rest.contains('_'));
            assert(f == k - 8);
        } else {
            assert forall|j: int| 0 <= j < rest.len() implies rest[j] != '_' by {
                assert(rest[j] == name@[j + 8]);
            }
            assert(!rest.contains('_'));
        }
    }
    if k >= n - 4 {
        return None;
    }
    let mut id_chars: Vec<char> = Vec::new();
    let mut j: usize = 8;
    while j < k
        invariant
            8 <= j <= k,
            k < n - 4,
            n == name@.len(),
            id_chars@ =~= name@.subrange(8, j as int),
        decreases k - j,
    {
        id_chars.push(name[j]);
        j = j + 1;
    }
    let mut index_chars: Vec<char> = Vec::new();
    let mut m: usize = k + 1;
    while m < n - 4
        invariant
            k + 1 <= m <= n - 4,
            n == name@.len(),
            index_chars@ =~= name@.subrange(k + 1, m as int),
        decreases n - 4 - m,
    {
        index_chars.push(name[m]);
        m = m + 1;
    }
    assert(id_chars@ =~= rest.take(k - 8));
    assert(index_chars@ =~= rest.skip(k - 8 + 1));
    let report_id = parse_unsigned_chars(&id_chars, 16, 0xFF);
    let sample_index = parse_unsigned_chars(&index_chars, 10, usize::MAX as u64);
    match (report_id, sample_index) {
        (Some(r), Some(s)) => Some((r as u8, s as usize)),
        _ => None,
    }
}

/// A sanitized label is never empty, keeps the label's length when the label
/// is not empty, and holds only ASCII letters, digits, `-` and `_`.
pub proof fn lemma_sanitized_label_charset(label: Seq<char>)
    ensures
        sanitized_label(label).len() > 0,
        label.len() > 0 ==> sanitized_label(label).len() == label.len(),
        forall|i: int|
            0 <= i < sanitized_label(label).len() ==> is_label_char(
                #[trigger] sanitized_label(label)[i],
            ),
{
    reveal_strlit("state");
}

/// How `query-hub-battery` describes a battery response: an explicit answer
/// to its request, or one that came on its own or late.
pub open spec fn hub_response_text(data: Seq<u8>, sequence: u8) -> Option<Seq<char>> {
    if !is_battery_response(data) {
        None
    } else {
        let label = if answers_sequence(data, sequence) {
            "explicit-response"@
        } else {
            "async-or-stale"@
        };
        Some(
            "    parsed "@ + label + " left="@ + optional_percent_text(decoded_percent(data[0x0E]))
                + " right="@ + optional_percent_text(decoded_percent(data[0x10])) + " case="@
                + optional_percent_text(decoded_percent(data[0x12])),
        )
    }
}

/// The line printed for a report read after the request with `sequence`;
/// `None` for a report that is not a battery response.
pub fn describe_hub_response(report: &[u8], sequence: u8) -> (line: Option<String>)
    ensures
        line is Some <==> hub_response_text(report@, sequence) is Some,
        line matches Some(l) ==> l@ == hub_response_text(report@, sequence)->0,
{
    let parsed = match parse_hub_battery_report(report) {
        Some(p) => p,
        None => return None,
    };
    let explicit = parse_hub_battery_report_for_sequence(report, sequence).is_some();
    let mut line = String::from_str("    parsed ");
    if explicit {
        line.append("explicit-response");
    } else {
        line.append("async-or-stale");
    }
    line.append(" left=");
    let l = format_optional_percent(parsed.left);
    line.append(l.as_str());
    line.append(" right=");
    let r = format_optional_percent(parsed.right);
    line.append(r.as_str());
    line.append(" case=");
    let c = format_optional_percent(parsed.case);
    line.append(c.as_str());
    Some(line)
}

/// The offsets a list of runs stands for, run after run.
pub open spec fn expand_runs(runs: Seq<(nat, nat)>) -> Seq<nat>
    decreases runs.len(),
{
    if runs.len() == 0 {
        seq![]
    } else {
        let (a, b) = runs.last();
        expand_runs(runs.drop_last()) + Seq::new((b + 1 - a) as nat, |i: int| (a + i) as nat)
    }
}

pub open spec fn strictly_ascending(offsets: Seq<usize>) -> bool {
    forall|i: int, j: int| 0 <= i < j < offsets.len() ==> offsets[i] < offsets[j]
}

/// For ascending offsets, the runs stand for exactly those offsets, each run
/// runs upwards, and consecutive runs are separated by a gap: the ranges
/// printed for the changed offsets neither lose nor merge any.
pub proof fn lemma_offset_runs_cover(offsets: Seq<usize>)
    requires
        strictly_ascending(offsets),
    ensures
        expand_runs(offset_runs(offsets)) == offsets.map_values(|o: usize| o as nat),
        forall|k: int|
            0 <= k < offset_runs(offsets).len() ==> #[trigger] offset_runs(offsets)[k].0
                <= offset_runs(offsets)[k].1,
        forall|k: int|
            0 <= k < offset_runs(offsets).len() - 1 ==> #[trigger] offset_runs(offsets)[k].1 + 1
                < offset_runs(offsets)[k + 1].0,
        offsets.len() > 0 ==> offset_runs(offsets).len() > 0 && offset_runs(offsets).last().1
            == offsets.last(),
        offsets.len() == 0 ==> offset_runs(offsets).len() == 0,
    decreases offsets.len(),
{
    if offsets.len() > 0 {
        let prev = offsets.drop_last();
        assert(strictly_ascending(prev)) by {
            assert forall|i: int, j: int| 0 <= i < j < prev.len() implies prev[i] < prev[j] by {
                assert(prev[i] == offsets[i] && prev[j] == offsets[j]);
            }
        }
        lemma_offset_runs_cover(prev);
        let r = offset_runs(prev);
        let x = offsets.last() as nat;
        let m = offsets.map_values(|o: usize| o as nat);
        assert(m =~= prev.map_values(|o: usize| o as nat).push(x));
        if prev.len() > 0 {
            assert(prev.last() == offsets[offsets.len() - 2]);
            assert(x > r.last().1);
        }
        if r.len() > 0 && x == r.last().1 + 1 {
            let (a, b) = r.last();
            let out = r.update(r.len() - 1, (a, x));
            assert(out.drop_last() =~= r.drop_last());
            assert(Seq::new((x + 1 - a) as nat, |i: int| (a + i) as nat) =~= Seq::new(
                (b + 1 - a) as nat,
                |i: int| (a + i) as nat,
            ).push(x));
            assert(expand_runs(out) =~= expand_runs(r).push(x));
        } else {
            let out = r.push((x, x));
            assert(out.drop_last() =~= r);
            assert(Seq::new(1, |i: int| (x + i) as nat) =~= seq![x]);
            assert(expand_runs(out) =~= expand_runs(r).push(x));
        }
    } else {
        assert(offsets.map_values(|o: usize| o as nat) =~= seq![]);
    }
}

} // verus!
