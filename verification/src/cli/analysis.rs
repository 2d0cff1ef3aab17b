//! Comparing captured reports: byte-by-byte differences between two dumps,
//! and which offsets change across a series of samples of one feature report.
use vstd::prelude::*;

use crate::cli::format::{format_optional_byte, hex_bytes_text, optional_byte_text, push_hex_list};
use crate::text::{decimal_chars, hex_text, push_decimal, push_hex};

verus! {

/// The byte at `i`, if the data reaches it.
pub open spec fn byte_at(data: Seq<u8>, i: int) -> Option<u8> {
    if 0 <= i < data.len() {
        Some(data[i])
    } else {
        None
    }
}

/// An offset where two dumps differ, with what each holds there.
#[derive(Clone, Copy, Debug, PartialEq, Eq, Structural)]
pub struct ByteDifference {
    pub offset: usize,
    pub left: Option<u8>,
    pub right: Option<u8>,
}

/// The differences among the first `n` offsets, in order.
pub open spec fn differences_upto(left: Seq<u8>, right: Seq<u8>, n: int) -> Seq<ByteDifference>
    decreases n,
{
    if n <= 0 {
        seq![]
    } else {
        let before = differences_upto(left, right, n - 1);
        let o = n - 1;
        if byte_at(left, o) != byte_at(right, o) {
            before.push(ByteDifference { offset: o as usize, left: byte_at(left, o), right: byte_at(right, o) })
        } else {
            before
        }
    }
}

pub open spec fn max_len(a: Seq<u8>, b: Seq<u8>) -> int {
    if a.len() >= b.len() {
        a.len() as int
    } else {
        b.len() as int
    }
}

/// Every offset, up to the longer dump, where the two differ (a missing byte
/// differs from any present one).
pub fn byte_differences(left: &[u8], right: &[u8]) -> (diffs: Vec<ByteDifference>)
    ensures
        diffs@ == differences_upto(left@, right@, max_len(left@, right@)),
{
    let n: usize = if left.len() >= right.len() {
        left.len()
    } else {
        right.len()
    };
    let mut diffs: Vec<ByteDifference> = Vec::new();
    let mut i: usize = 0;
    while i < n
        invariant
            i <= n,
            n == max_len(left@, right@),
            diffs@ == differences_upto(left@, right@, i as int),
        decreases n - i,
    {
        let l: Option<u8> = if i < left.len() {
            Some(left[i])
        } else {
            None
        };
        let r: Option<u8> = if i < right.len() {
            Some(right[i])
        } else {
            None
        };
        let differ = match (l, r) {
            (Some(a), Some(b)) => a != b,
            (None, None) => false,
            _ => true,
        };
        if differ {
            diffs.push(ByteDifference { offset: i, left: l, right: r });
        }
        i = i + 1;
    }
    diffs
}

/// Two dumps differ at offset `o` when one has a byte there and the other
/// does not, or both have one and the two are not equal.
pub open spec fn dumps_differ_at(left: Seq<u8>, right: Seq<u8>, o: int) -> bool {
    ||| (o < left.len()) != (o < right.len())
    ||| (o < left.len() && o < right.len() && left[o] != right[o])
}

/// The differences of two dumps: one entry for each offset, below the longer
/// length, where the dumps differ (a byte missing on one side differs from
/// any byte, 0 included), in increasing order of offset, each with the byte
/// that each dump holds there (`None` where it has none); nothing else.
pub proof fn lemma_byte_differences_exact(left: Seq<u8>, right: Seq<u8>)
    requires
        left.len() <= usize::MAX,
        right.len() <= usize::MAX,
    ensures
        ({
            let diffs = differences_upto(left, right, max_len(left, right));
            &&& forall|i: int, j: int|
                0 <= i < j < diffs.len() ==> (#[trigger] diffs[i]).offset < (#[trigger] diffs[j]).offset
            &&& forall|i: int|
                #![trigger diffs[i]]
                0 <= i < diffs.len() ==> {
                    let o = diffs[i].offset as int;
                    &&& o < left.len() || o < right.len()
                    &&& dumps_differ_at(left, right, o)
                    &&& diffs[i].left == (if o < left.len() {
                        Some(left[o])
                    } else {
                        None
                    })
                    &&& diffs[i].right == (if o < right.len() {
                        Some(right[o])
                    } else {
                        None
                    })
                }
            &&& forall|o: int|
                0 <= o && (o < left.len() || o < right.len()) && #[trigger] dumps_differ_at(
                    left,
                    right,
                    o,
                ) ==> exists|i: int| 0 <= i < diffs.len() && (#[trigger] diffs[i]).offset == o
        }),
{
    lemma_differences_upto_exact(left, right, max_len(left, right));
}

proof fn lemma_differences_upto_exact(left: Seq<u8>, right: Seq<u8>, n: int)
    requires
        0 <= n <= max_len(left, right),
        left.len() <= usize::MAX,
        right.len() <= usize::MAX,
    ensures
        ({
            let diffs = differences_upto(left, right, n);
            &&& forall|i: int, j: int|
                0 <= i < j < diffs.len() ==> (#[trigger] diffs[i]).offset < (#[trigger] diffs[j]).offset
            &&& forall|i: int|
                #![trigger diffs[i]]
                0 <= i < diffs.len() ==> {
                    let o = diffs[i].offset as int;
                    &&& o < n
                    &&& o < left.len() || o < right.len()
                    &&& dumps_differ_at(left, right, o)
                    &&& diffs[i].left == (if o < left.len() {
                        Some(left[o])
                    } else {
                        None
                    })
                    &&& diffs[i].right == (if o < right.len() {
                        Some(right[o])
                    } else {
                        None
                    })
                }
            &&& forall|o: int|
                0 <= o < n && #[trigger] dumps_differ_at(left, right, o) ==> exists|i: int|
                    0 <= i < diffs.len() && (#[trigger] diffs[i]).offset == o
        }),
    decreases n,
{
    if n > 0 {
        lemma_differences_upto_exact(left, right, n - 1);
        let before = differences_upto(left, right, n - 1);
        let o = n - 1;
        let diffs = differences_upto(left, right, n);
        assert(byte_at(left, o) != byte_at(right, o) <==> dumps_differ_at(left, right, o));
        assert forall|i: int| 0 <= i < before.len() implies diffs[i] == before[i] by {}
        assert forall|p: int|
            0 <= p < n && #[trigger] dumps_differ_at(left, right, p) implies exists|i: int|
            0 <= i < diffs.len() && (#[trigger] diffs[i]).offset == p by {
            if p < o {
                let i = choose|i: int| 0 <= i < before.len() && (#[trigger] before[i]).offset == p;
                assert(diffs[i] == before[i]);
            } else {
                assert(diffs[before.len() as int].offset == p);
            }
        }
    }
}

/// `offset 0x0012: left=0x64 (100) right=-`.
pub open spec fn difference_text(d: ByteDifference) -> Seq<char> {
    "offset 0x"@ + hex_text(d.offset as nat, 4, true) + ": left="@ + optional_byte_text(d.left)
        + " right="@ + optional_byte_text(d.right)
}

pub fn difference_line(d: &ByteDifference) -> (line: String)
    ensures
        line@ == difference_text(*d),
{
    let mut line = String::from_str("offset 0x");
    push_hex(&mut line, d.offset as u64, 4, true);
    line.append(": left=");
    let l = format_optional_byte(d.left);
    line.append(l.as_str());
    line.append(" right=");
    let r = format_optional_byte(d.right);
    line.append(r.as_str());
    line
}

/// How many changed offsets a series report lists one by one.
pub const LISTED_OFFSETS: usize = 80;

/// One capture of a feature report in a series.
#[derive(Debug, Clone)]
pub struct FeatureSeriesSample {
    pub sample_index: usize,
    pub data: Vec<u8>,
}

/// Per offset: how often it changed between consecutive samples, which
/// values it took (ascending), and the offsets that changed at all.
#[derive(Debug, Clone)]
pub struct SeriesAnalysis {
    pub change_counts: Vec<usize>,
    pub distinct_values: Vec<Vec<u8>>,
    pub changed_offsets: Vec<usize>,
}

pub open spec fn sample_datas(samples: Seq<FeatureSeriesSample>) -> Seq<Seq<u8>> {
    samples.map_values(|s: FeatureSeriesSample| s.data@)
}

/// Length of the longest sample.
pub open spec fn longest(datas: Seq<Seq<u8>>) -> nat
    decreases datas.len(),
{
    if datas.len() == 0 {
        0
    } else {
        let before = longest(datas.drop_last());
        if datas.last().len() > before {
            datas.last().len()
        } else {
            before
        }
    }
}

/// Among the first `k` consecutive pairs, how many differ at `offset`.
pub open spec fn changes_upto(datas: Seq<Seq<u8>>, offset: int, k: int) -> nat
    decreases k,
{
    if k <= 0 {
        0
    } else {
        changes_upto(datas, offset, k - 1) + if byte_at(datas[k - 1], offset) != byte_at(
            datas[k],
            offset,
        ) {
            1nat
        } else {
            0nat
        }
    }
}

/// How many consecutive pairs of samples differ at `offset`.
pub open spec fn change_count(datas: Seq<Seq<u8>>, offset: int) -> nat {
    if datas.len() < 2 {
        0
    } else {
        changes_upto(datas, offset, datas.len() - 1)
    }
}

/// The values the samples hold at `offset`.
pub open spec fn values_at(datas: Seq<Seq<u8>>, offset: int) -> Set<u8> {
    Set::new(|b: u8| exists|m: int| 0 <= m < datas.len() && byte_at(datas[m], offset) == Some(b))
}

/// Among the first `n` offsets, those that changed, ascending.
pub open spec fn changed_offsets_upto(datas: Seq<Seq<u8>>, n: int) -> Seq<usize>
    decreases n,
{
    if n <= 0 {
        seq![]
    } else {
        let before = changed_offsets_upto(datas, n - 1);
        if change_count(datas, n - 1) > 0 {
            before.push((n - 1) as usize)
        } else {
            before
        }
    }
}

pub open spec fn strictly_increasing(s: Seq<u8>) -> bool {
    forall|i: int, j: int| 0 <= i < j < s.len() ==> s[i] < s[j]
}

proof fn lemma_longest_bounds(datas: Seq<Seq<u8>>)
    ensures
        forall|m: int| 0 <= m < datas.len() ==> #[trigger] datas[m].len() <= longest(datas),
        datas.len() > 0 ==> exists|m: int| 0 <= m < datas.len() && datas[m].len() == longest(datas),
    decreases datas.len(),
{
    if datas.len() > 0 {
        lemma_longest_bounds(datas.drop_last());
        assert forall|m: int| 0 <= m < datas.len() implies #[trigger] datas[m].len() <= longest(
            datas,
        ) by {
            if m < datas.len() - 1 {
                assert(datas.drop_last()[m] == datas[m]);
            }
        }
        if datas.len() > 1 && longest(datas) == longest(datas.drop_last()) {
            let m = choose|m: int|
                0 <= m < datas.drop_last().len() && datas.drop_last()[m].len() == longest(
                    datas.drop_last(),
                );
            assert(datas[m] == datas.drop_last()[m]);
        }
        if datas.len() == 1 {
            assert(longest(datas.drop_last()) == 0);
        }
    }
}

proof fn lemma_changes_bounded(datas: Seq<Seq<u8>>, offset: int, k: int)
    requires
        k >= 0,
    ensures
        changes_upto(datas, offset, k) <= k,
    decreases k,
{
    if k > 0 {
        lemma_changes_bounded(datas, offset, k - 1);
    }
}

/// Compares the samples, in the order given.
pub fn analyze_feature_series(samples: &[FeatureSeriesSample]) -> (analysis: SeriesAnalysis)
    ensures
        ({
            let d = sample_datas(samples@);
            let n = longest(d);
            &&& analysis.change_counts@.len() == n
            &&& forall|o: int| 0 <= o < n ==> #[trigger] analysis.change_counts@[o] == change_count(d, o)
            &&& analysis.distinct_values@.len() == n
            &&& forall|o: int|
                0 <= o < n ==> strictly_increasing(#[trigger] analysis.distinct_values@[o]@)
                    && analysis.distinct_values@[o]@.to_set() == values_at(d, o)
            &&& analysis.changed_offsets@ == changed_offsets_upto(d, n as int)
        }),
{
    let ghost d = sample_datas(samples@);
    proof {
        lemma_longest_bounds(d);
    }
    let mut n: usize = 0;
    let mut k: usize = 0;
    while k < samples.len()
        invariant
            k <= samples@.len(),
            d == sample_datas(samples@),
            n == longest(d.take(k as int)),
        decreases samples.len() - k,
    {
        assert(d.take(k + 1).drop_last() =~= d.take(k as int));
        assert(d.take(k + 1).last() == samples@[k as int].data@);
        if samples[k].data.len() > n {
            n = samples[k].data.len();
        }
        k = k + 1;
    }
    assert(d.take(k as int) =~= d);
    let change_counts = count_changes(samples, n);
    let distinct_values = collect_distinct_values(samples, n);
    let mut changed_offsets: Vec<usize> = Vec::new();
    let mut o: usize = 0;
    while o < n
        invariant
            o <= n,
            n == longest(d),
            d == sample_datas(samples@),
            change_counts@.len() == n,
            forall|q: int| 0 <= q < n ==> #[trigger] change_counts@[q] == change_count(d, q),
            changed_offsets@ == changed_offsets_upto(d, o as int),
        decreases n - o,
    {
        if change_counts[o] > 0 {
            changed_offsets.push(o);
        }
        o = o + 1;
    }
    SeriesAnalysis { change_counts, distinct_values, changed_offsets }
}

fn count_changes(samples: &[FeatureSeriesSample], n: usize) -> (counts: Vec<usize>)
    requires
        n == longest(sample_datas(samples@)),
    ensures
        counts@.len() == n,
        forall|o: int|
            0 <= o < n ==> #[trigger] counts@[o] == change_count(sample_datas(samples@), o),
{
    let ghost d = sample_datas(samples@);
    proof {
        lemma_longest_bounds(d);
    }
    let mut counts: Vec<usize> = Vec::new();
    while counts.len() < n
        invariant
            counts@.len() <= n,
            forall|o: int| 0 <= o < counts@.len() ==> #[trigger] counts@[o] == 0,
        decreases n - counts.len(),
    {
        counts.push(0);
    }
    if samples.len() < 2 {
        return counts;
    }
    let mut k: usize = 0;
    while k + 1 < samples.len()
        invariant
            k + 1 <= samples@.len(),
            samples@.len() >= 2,
            d == sample_datas(samples@),
            n == longest(d),
            forall|m: int| 0 <= m < d.len() ==> #[trigger] d[m].len() <= n,
            counts@.len() == n,
            forall|o: int| 0 <= o < n ==> #[trigger] counts@[o] == changes_upto(d, o, k as int),
        decreases samples.len() - k,
    {
        let left = &samples[k].data;
        let right = &samples[k + 1].data;
        assert(d[k as int] == left@);
        assert(d[k + 1] == right@);
        let len: usize = if left.len() >= right.len() {
            left.len()
        } else {
            right.len()
        };
        let mut j: usize = 0;
        while j < len
            invariant
                j <= len,
                len <= n,
                len == max_len(left@, right@),
                d == sample_datas(samples@),
                d[k as int] == left@,
                d[k + 1] == right@,
                k + 1 < samples@.len(),
                counts@.len() == n,
                forall|o: int|
                    0 <= o < n ==> #[trigger] counts@[o] == changes_upto(d, o, k as int) + if o < j
                        && byte_at(left@, o) != byte_at(right@, o) {
                        1nat
                    } else {
                        0nat
                    },
            decreases len - j,
        {
            let l: Option<u8> = if j < left.len() {
                Some(left[j])
            } else {
                None
            };
            let r: Option<u8> = if j < right.len() {
                Some(right[j])
            } else {
                None
            };
            let differ = match (l, r) {
                (Some(a), Some(b)) => a != b,
                (None, None) => false,
                _ => true,
            };
            if differ {
                proof {
                    lemma_changes_bounded(d, j as int, k as int);
                }
                let c = counts[j];
                assert(c == changes_upto(d, j as int, k as int));
                assert(k + 1 < samples.len());
                counts.set(j, c + 1);
            }
            j = j + 1;
        }
        assert forall|o: int| 0 <= o < n implies #[trigger] counts@[o] == changes_upto(
            d,
            o,
            k + 1,
        ) by {
            if o >= len {
                assert(byte_at(left@, o) == byte_at(right@, o));
            }
        }
        k = k + 1;
    }
    counts
}

fn collect_distinct_values(samples: &[FeatureSeriesSample], n: usize) -> (values: Vec<Vec<u8>>)
    requires
        n == longest(sample_datas(samples@)),
    ensures
        values@.len() == n,
        forall|o: int|
            0 <= o < n ==> strictly_increasing(#[trigger] values@[o]@) && values@[o]@.to_set()
                == values_at(sample_datas(samples@), o),
{
    let ghost d = sample_datas(samples@);
    let mut values: Vec<Vec<u8>> = Vec::new();
    let mut o: usize = 0;
    while o < n
        invariant
            o <= n,
            d == sample_datas(samples@),
            values@.len() == o,
            forall|q: int|
                0 <= q < o ==> strictly_increasing(#[trigger] values@[q]@) && values@[q]@.to_set()
                    == values_at(d, q),
        decreases n - o,
    {
        let v = values_at_offset(samples, o);
        values.push(v);
        o = o + 1;
    }
    values
}

/// The values the samples hold at `offset`, ascending.
fn values_at_offset(samples: &[FeatureSeriesSample], offset: usize) -> (v: Vec<u8>)
    ensures
        strictly_increasing(v@),
        v@.to_set() == values_at(sample_datas(samples@), offset as int),
{
    let ghost d = sample_datas(samples@);
    let mut out: Vec<u8> = Vec::new();
    let mut b: u16 = 0;
    while b < 256
        invariant
            b <= 256,
            d == sample_datas(samples@),
            strictly_increasing(out@),
            forall|i: int| 0 <= i < out@.len() ==> #[trigger] out@[i] < b,
            forall|x: u8| #[trigger]
                out@.contains(x) <==> (x < b && values_at(d, offset as int).contains(x)),
        decreases 256 - b,
    {
        let byte: u8 = b as u8;
        assert(byte == b);
        if holds_value(samples, offset, byte) {
            let ghost before = out@;
            out.push(byte);
            assert forall|x: u8| #[trigger]
                out@.contains(x) <==> (x < b + 1 && values_at(d, offset as int).contains(x)) by {
                if x == byte {
                    assert(out@[out@.len() - 1] == x);
                } else {
                    if out@.contains(x) {
                        let i = choose|i: int| 0 <= i < out@.len() && out@[i] == x;
                        assert(i < before.len());
                        assert(before[i] == x);
                        assert(before.contains(x));
                    }
                    if x < b + 1 && values_at(d, offset as int).contains(x) {
                        assert(x < b);
                        assert(before.contains(x));
                        let i = choose|i: int| 0 <= i < before.len() && before[i] == x;
                        assert(out@[i] == x);
                    }
                }
            }
        } else {
            assert forall|x: u8| #[trigger]
                out@.contains(x) <==> (x < b + 1 && values_at(d, offset as int).contains(x)) by {
                if x == byte {
                    assert(!values_at(d, offset as int).contains(x));
                }
            }
        }
        b = b + 1;
    }
    assert(out@.to_set() =~= values_at(d, offset as int)) by {
        assert forall|x: u8| out@.to_set().contains(x) <==> values_at(d, offset as int).contains(
            x,
        ) by {
            assert(out@.contains(x) <==> (x < 256 && values_at(d, offset as int).contains(x)));
        }
    }
    out
}

/// Whether some sample holds `value` at `offset`.
fn holds_value(samples: &[FeatureSeriesSample], offset: usize, value: u8) -> (found: bool)
    ensures
        found == values_at(sample_datas(samples@), offset as int).contains(value),
{
    let ghost d = sample_datas(samples@);
    let mut k: usize = 0;
    while k < samples.len()
        invariant
            k <= samples@.len(),
            d == sample_datas(samples@),
            forall|m: int| 0 <= m < k ==> byte_at(#[trigger] d[m], offset as int) != Some(value),
        decreases samples.len() - k,
    {
        let data = &samples[k].data;
        assert(d[k as int] == data@);
        if offset < data.len() && data[offset] == value {
            assert(byte_at(d[k as int], offset as int) == Some(value));
            return true;
        }
        k = k + 1;
    }
    assert(!values_at(d, offset as int).contains(value)) by {
        if values_at(d, offset as int).contains(value) {
            let m = choose|m: int| 0 <= m < d.len() && byte_at(d[m], offset as int) == Some(value);
            assert(byte_at(d[m], offset as int) != Some(value));
        }
    }
    false
}

/// The 4-byte bucket an offset falls in, named by its first offset.
pub open spec fn bucket_of(offset: usize) -> nat {
    (offset / 4 * 4) as nat
}

/// Consecutive offsets of the same bucket, grouped: (bucket, how many).
pub open spec fn bucket_groups(offsets: Seq<usize>) -> Seq<(nat, nat)>
    decreases offsets.len(),
{
    if offsets.len() == 0 {
        seq![]
    } else {
        let before = bucket_groups(offsets.drop_last());
        let key = bucket_of(offsets.last());
        if before.len() > 0 && before.last().0 == key {
            before.update(before.len() - 1, (key, before.last().1 + 1))
        } else {
            before.push((key, 1))
        }
    }
}

/// The 4-byte buckets of the changed offsets (ascending when the offsets
/// are), each with the number of changed offsets in it.
pub fn change_buckets(changed_offsets: &[usize]) -> (buckets: Vec<(usize, usize)>)
    ensures
        buckets@.len() == bucket_groups(changed_offsets@).len(),
        forall|g: int|
            0 <= g < buckets@.len() ==> (#[trigger] buckets@[g].0 as nat, buckets@[g].1 as nat)
                == bucket_groups(changed_offsets@)[g],
{
    let mut buckets: Vec<(usize, usize)> = Vec::new();
    let mut i: usize = 0;
    while i < changed_offsets.len()
        invariant
            i <= changed_offsets@.len(),
            buckets@.len() == bucket_groups(changed_offsets@.take(i as int)).len(),
            forall|g: int|
                0 <= g < buckets@.len() ==> (#[trigger] buckets@[g].0 as nat, buckets@[g].1 as nat)
                    == bucket_groups(changed_offsets@.take(i as int))[g],
            forall|g: int| 0 <= g < buckets@.len() ==> #[trigger] buckets@[g].1 <= i,
        decreases changed_offsets.len() - i,
    {
        let offset = changed_offsets[i];
        let key: usize = offset / 4 * 4;
        let ghost t = changed_offsets@.take(i + 1);
        assert(t.drop_last() =~= changed_offsets@.take(i as int));
        assert(t.last() == offset);
        let n = buckets.len();
        if n > 0 && buckets[n - 1].0 == key {
            let (k, c) = buckets[n - 1];
            buckets.set(n - 1, (k, c + 1));
        } else {
            buckets.push((key, 1));
        }
        i = i + 1;
        assert(bucket_groups(t).len() == buckets@.len());
    }
    assert(changed_offsets@.take(i as int) =~= changed_offsets@);
    buckets
}

/// `  offset 0x0012: changes=3 distinct=2 values=00,64`.
pub open spec fn offset_summary_text(offset: nat, changes: nat, values: Seq<u8>) -> Seq<char> {
    "  offset 0x"@ + hex_text(offset, 4, true) + ": changes="@ + decimal_chars(changes)
        + " distinct="@ + decimal_chars(values.len()) + " values="@ + hex_bytes_text(values, ","@)
}

pub fn offset_summary_line(offset: usize, changes: usize, values: &[u8]) -> (line: String)
    ensures
        line@ == offset_summary_text(offset as nat, changes as nat, values@),
{
    let mut line = String::from_str("  offset 0x");
    push_hex(&mut line, offset as u64, 4, true);
    line.append(": changes=");
    push_decimal(&mut line, changes as u128);
    line.append(" distinct=");
    push_decimal(&mut line, values.len() as u128);
    line.append(" values=");
    push_hex_list(&mut line, values, ",");
    line
}

/// `    0x0010-0x0013: 2 changed byte(s)`.
pub open spec fn bucket_text(bucket: nat, count: nat) -> Seq<char> {
    "    0x"@ + hex_text(bucket, 4, true) + "-0x"@ + hex_text(bucket + 3, 4, true) + ": "@
        + decimal_chars(count) + " changed byte(s)"@
}

pub fn bucket_line(bucket: usize, count: usize) -> (line: String)
    requires
        bucket + 3 <= usize::MAX,
    ensures
        line@ == bucket_text(bucket as nat, count as nat),
{
    let mut line = String::from_str("    0x");
    push_hex(&mut line, bucket as u64, 4, true);
    line.append("-0x");
    push_hex(&mut line, (bucket + 3) as u64, 4, true);
    line.append(": ");
    push_decimal(&mut line, count as u128);
    line.append(" changed byte(s)");
    line
}

/// Where a sample with `key` goes: before the first sample whose index is
/// greater, so that samples with equal indexes keep their order.
pub open spec fn insertion_point(s: Seq<FeatureSeriesSample>, key: usize) -> int
    decreases s.len(),
{
    if s.len() == 0 {
        0
    } else if s[0].sample_index > key {
        0
    } else {
        1 + insertion_point(s.drop_first(), key)
    }
}

/// The samples ordered by sample index, equal indexes in their original
/// order (a stable insertion sort).
pub open spec fn sorted_by_index(s: Seq<FeatureSeriesSample>) -> Seq<FeatureSeriesSample>
    decreases s.len(),
{
    if s.len() == 0 {
        seq![]
    } else {
        let r = sorted_by_index(s.drop_last());
        r.insert(insertion_point(r, s.last().sample_index), s.last())
    }
}

pub open spec fn index_sorted(s: Seq<FeatureSeriesSample>) -> bool {
    forall|i: int, j: int| 0 <= i <= j < s.len() ==> s[i].sample_index <= s[j].sample_index
}

proof fn lemma_insertion_point(s: Seq<FeatureSeriesSample>, key: usize)
    ensures
        0 <= insertion_point(s, key) <= s.len(),
        forall|j: int| 0 <= j < insertion_point(s, key) ==> #[trigger] s[j].sample_index <= key,
        insertion_point(s, key) < s.len() ==> s[insertion_point(s, key)].sample_index > key,
    decreases s.len(),
{
    if s.len() > 0 && s[0].sample_index <= key {
        lemma_insertion_point(s.drop_first(), key);
        assert forall|j: int| 0 <= j < insertion_point(s, key) implies #[trigger] s[j].sample_index
            <= key by {
            if j > 0 {
                assert(s[j] == s.drop_first()[j - 1]);
            }
        }
        if insertion_point(s, key) < s.len() {
            assert(s[insertion_point(s, key)] == s.drop_first()[insertion_point(s, key) - 1]);
        }
    }
}

/// The samples come out ordered by index, and they are the samples that
/// went in, each once.
pub proof fn lemma_sorted_by_index(s: Seq<FeatureSeriesSample>)
    ensures
        index_sorted(sorted_by_index(s)),
        sorted_by_index(s).to_multiset() == s.to_multiset(),
        sorted_by_index(s).len() == s.len(),
    decreases s.len(),
{
    broadcast use vstd::seq_lib::to_multiset_build, vstd::seq_lib::to_multiset_insert;

    if s.len() == 0 {
        assert(sorted_by_index(s) =~= s);
    } else {
        let r = sorted_by_index(s.drop_last());
        lemma_sorted_by_index(s.drop_last());
        let x = s.last();
        let p = insertion_point(r, x.sample_index);
        lemma_insertion_point(r, x.sample_index);
        let out = r.insert(p, x);
        assert forall|i: int, j: int| 0 <= i <= j < out.len() implies out[i].sample_index
            <= out[j].sample_index by {
            if j < p {
            } else if j == p {
                if i < p {
                    assert(out[i] == r[i]);
                }
            } else if i > p {
                assert(out[i] == r[i - 1]);
                assert(out[j] == r[j - 1]);
            } else if i == p {
                assert(out[j] == r[j - 1]);
                assert(r[p].sample_index <= r[j - 1].sample_index);
            } else {
                assert(out[i] == r[i]);
                assert(out[j] == r[j - 1]);
            }
        }
        assert(s.drop_last().push(x) =~= s);
    }
}

/// Whether a sample has index `k`.
pub open spec fn has_index(k: usize) -> spec_fn(FeatureSeriesSample) -> bool {
    |x: FeatureSeriesSample| x.sample_index == k
}

/// The sort is stable: for every index, the samples that carry it come out in
/// the order in which they went in.
pub proof fn lemma_sort_is_stable(s: Seq<FeatureSeriesSample>, k: usize)
    ensures
        sorted_by_index(s).filter(has_index(k)) == s.filter(has_index(k)),
    decreases s.len(),
{
    if s.len() > 0 {
        let r = sorted_by_index(s.drop_last());
        lemma_sort_is_stable(s.drop_last(), k);
        lemma_sorted_by_index(s.drop_last());
        let x = s.last();
        let p = insertion_point(r, x.sample_index);
        lemma_insertion_point(r, x.sample_index);
        let pred = has_index(k);
        let head = r.take(p);
        let tail = r.skip(p);
        assert(r =~= head + tail);
        assert(r.insert(p, x) =~= head + seq![x] + tail);
        assert(s =~= s.drop_last() + seq![x]);
        Seq::filter_distributes_over_add(head, tail, pred);
        Seq::filter_distributes_over_add(head, seq![x], pred);
        Seq::filter_distributes_over_add(head + seq![x], tail, pred);
        Seq::filter_distributes_over_add(s.drop_last(), seq![x], pred);
        reveal_with_fuel(Seq::filter, 2);
        assert(seq![x].drop_last() =~= Seq::<FeatureSeriesSample>::empty());
        if x.sample_index == k {
            assert forall|i: int| 0 <= i < tail.len() implies !pred(tail[i]) by {
                assert(tail[i] == r[p + i]);
                assert(r[p].sample_index <= r[p + i].sample_index);
            }
            tail.lemma_all_neg_filter_empty(pred);
            assert(seq![x].filter(pred) =~= seq![x]);
        } else {
            assert(seq![x].filter(pred) =~= Seq::<FeatureSeriesSample>::empty());
        }
    }
}

/// Orders the samples by sample index, keeping equal indexes in order.
pub fn sort_samples_by_index(samples: Vec<FeatureSeriesSample>) -> (sorted: Vec<
    FeatureSeriesSample,
>)
    ensures
        sorted@ == sorted_by_index(samples@),
        index_sorted(sorted@),
        sorted@.to_multiset() == samples@.to_multiset(),
        forall|k: usize| #[trigger] sorted@.filter(has_index(k)) == samples@.filter(has_index(k)),
{
    let ghost original = samples@;
    let mut rest = samples;
    let mut out: Vec<FeatureSeriesSample> = Vec::new();
    let ghost mut taken: int = 0;
    assert(original.take(0) =~= seq![]);
    while rest.len() > 0
        invariant
            0 <= taken <= original.len(),
            rest@ == original.skip(taken),
            out@ == sorted_by_index(original.take(taken)),
        decreases rest.len(),
    {
        let x = rest.remove(0);
        assert(x == original[taken]);
        let key = x.sample_index;
        let mut p: usize = 0;
        assert(out@.skip(0) =~= out@);
        while p < out.len() && out[p].sample_index <= key
            invariant
                p <= out@.len(),
                insertion_point(out@, key) == p + insertion_point(out@.skip(p as int), key),
            decreases out.len() - p,
        {
            assert(out@.skip(p as int).drop_first() =~= out@.skip(p + 1));
            p = p + 1;
        }
        assert(insertion_point(out@.skip(p as int), key) == 0);
        out.insert(p, x);
        proof {
            let t = original.take(taken + 1);
            assert(t.drop_last() =~= original.take(taken));
            assert(t.last() == x);
            taken = taken + 1;
            assert(rest@ =~= original.skip(taken));
        }
    }
    assert(original.take(taken) =~= original);
    proof {
        lemma_sorted_by_index(original);
        assert forall|k: usize| #[trigger] out@.filter(has_index(k)) == original.filter(
            has_index(k),
        ) by {
            lemma_sort_is_stable(original, k);
        }
    }
    out
}

/// How many of the offsets fall in the bucket that starts at `key`.
pub open spec fn bucket_count(offsets: Seq<usize>, key: nat) -> nat
    decreases offsets.len(),
{
    if offsets.len() == 0 {
        0
    } else {
        bucket_count(offsets.drop_last(), key) + if bucket_of(offsets.last()) == key {
            1nat
        } else {
            0nat
        }
    }
}

pub open spec fn ascending(offsets: Seq<usize>) -> bool {
    forall|i: int, j: int| 0 <= i <= j < offsets.len() ==> offsets[i] <= offsets[j]
}

proof fn lemma_bucket_count_zero(offsets: Seq<usize>, key: nat)
    requires
        forall|i: int| 0 <= i < offsets.len() ==> bucket_of(#[trigger] offsets[i]) < key,
    ensures
        bucket_count(offsets, key) == 0,
    decreases offsets.len(),
{
    if offsets.len() > 0 {
        assert(bucket_of(offsets[offsets.len() - 1]) < key);
        assert forall|i: int| 0 <= i < offsets.drop_last().len() implies bucket_of(
            #[trigger] offsets.drop_last()[i],
        ) < key by {
            assert(offsets.drop_last()[i] == offsets[i]);
        }
        lemma_bucket_count_zero(offsets.drop_last(), key);
    }
}

/// For ascending offsets, the buckets come in ascending order, each once, and
/// each with the number of offsets that fall in it: the same buckets and
/// counts as an ordered set of bucket starts would give.
pub proof fn lemma_bucket_groups_ordered(offsets: Seq<usize>)
    requires
        ascending(offsets),
    ensures
        forall|g: int, h: int|
            0 <= g < h < bucket_groups(offsets).len() ==> #[trigger] bucket_groups(offsets)[g].0
                < #[trigger] bucket_groups(offsets)[h].0,
        forall|g: int|
            0 <= g < bucket_groups(offsets).len() ==> #[trigger] bucket_groups(offsets)[g].1
                == bucket_count(offsets, bucket_groups(offsets)[g].0),
        forall|i: int|
            0 <= i < offsets.len() ==> exists|g: int|
                0 <= g < bucket_groups(offsets).len() && #[trigger] bucket_groups(offsets)[g].0
                    == bucket_of(#[trigger] offsets[i]),
        offsets.len() > 0 ==> bucket_groups(offsets).len() > 0 && bucket_groups(offsets).last().0
            == bucket_of(offsets.last()),
        forall|i: int|
            0 <= i < offsets.len() && bucket_groups(offsets).len() > 0 ==> bucket_of(
                #[trigger] offsets[i],
            ) <= bucket_groups(offsets).last().0,
    decreases offsets.len(),
{
    if offsets.len() > 0 {
        let prev = offsets.drop_last();
        assert(ascending(prev)) by {
            assert forall|i: int, j: int| 0 <= i <= j < prev.len() implies prev[i] <= prev[j] by {
                assert(prev[i] == offsets[i] && prev[j] == offsets[j]);
            }
        }
        lemma_bucket_groups_ordered(prev);
        let r = bucket_groups(prev);
        let x = offsets.last();
        let key = bucket_of(x);
        assert forall|i: int| 0 <= i < prev.len() implies bucket_of(#[trigger] prev[i]) <= key by {
            assert(prev[i] == offsets[i]);
            assert(offsets[i] <= x);
        }
        if prev.len() > 0 {
            assert(r.last().0 <= key) by {
                assert(prev.last() == prev[prev.len() - 1]);
            }
        }
        let out = bucket_groups(offsets);
        if r.len() > 0 && r.last().0 == key {
            assert forall|g: int| 0 <= g < out.len() implies #[trigger] out[g].1 == bucket_count(
                offsets,
                out[g].0,
            ) by {
                if g < out.len() - 1 {
                    assert(out[g] == r[g]);
                    assert(r[g].0 < r.last().0);
                }
            }
            assert forall|i: int| 0 <= i < offsets.len() implies exists|g: int|
                0 <= g < out.len() && #[trigger] out[g].0 == bucket_of(#[trigger] offsets[i]) by {
                if i < offsets.len() - 1 {
                    assert(offsets[i] == prev[i]);
                    let g = choose|g: int| 0 <= g < r.len() && #[trigger] r[g].0 == bucket_of(prev[i]);
                    assert(out[g].0 == r[g].0);
                } else {
                    assert(out[out.len() - 1].0 == key);
                }
            }
        } else {
            assert forall|i: int| 0 <= i < prev.len() implies bucket_of(#[trigger] prev[i]) < key by {
                assert(bucket_of(prev[i]) <= r.last().0);
            }
            lemma_bucket_count_zero(prev, key);
            assert forall|g: int| 0 <= g < out.len() implies #[trigger] out[g].1 == bucket_count(
                offsets,
                out[g].0,
            ) by {
                if g < out.len() - 1 {
                    assert(out[g] == r[g]);
                    assert(r[g].0 <= r.last().0);
                }
            }
            assert forall|i: int| 0 <= i < offsets.len() implies exists|g: int|
                0 <= g < out.len() && #[trigger] out[g].0 == bucket_of(#[trigger] offsets[i]) by {
                if i < offsets.len() - 1 {
                    assert(offsets[i] == prev[i]);
                    let g = choose|g: int| 0 <= g < r.len() && #[trigger] r[g].0 == bucket_of(prev[i]);
                    assert(out[g].0 == r[g].0);
                } else {
                    assert(out[out.len() - 1].0 == key);
                }
            }
        }
        assert forall|i: int| 0 <= i < offsets.len() implies bucket_of(#[trigger] offsets[i]) <= out.last().0 by {
            if i < offsets.len() - 1 {
                assert(offsets[i] == prev[i]);
            }
        }
    }
}

} // verus!
