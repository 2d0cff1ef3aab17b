//! Report IDs declared by a HID report descriptor, and the feature reports
//! worth probing on a collection.
use vstd::prelude::*;

use crate::config::settings::Settings;

verus! {

/// Data bytes that follow a short item's prefix: its size code 0, 1, 2 or 3 means 0, 1, 2 or 4 bytes.
pub open spec fn short_item_data_len(prefix: u8) -> int {
    if prefix % 4 == 3 {
        4
    } else {
        (prefix % 4) as int
    }
}

/// A Report ID item: global item tag 8, whatever its size code (prefix 0x84..=0x87).
pub open spec fn is_report_id_prefix(prefix: u8) -> bool {
    prefix / 4 == 0x21
}

/// The report-ID bytes met while walking the descriptor's items from `pos`.
///
/// A long item (prefix 0xFE) is followed by its data size and its tag, then
/// the data; one cut short ends the walk. A short item is its prefix and its
/// data; a Report ID item contributes its first data byte when there is one.
pub open spec fn report_id_bytes(descriptor: Seq<u8>, pos: int) -> Seq<u8>
    decreases descriptor.len() - pos,
{
    if pos < 0 || pos >= descriptor.len() {
        seq![]
    } else {
        let prefix = descriptor[pos];
        let next = pos + 1;
        if prefix == 0xFE {
            if next + 1 >= descriptor.len() {
                seq![]
            } else {
                let after = next + 2 + descriptor[next];
                if after >= descriptor.len() {
                    seq![]
                } else {
                    report_id_bytes(descriptor, after)
                }
            }
        } else {
            let here: Seq<u8> = if is_report_id_prefix(prefix) && next < descriptor.len() {
                seq![descriptor[next]]
            } else {
                seq![]
            };
            let after = next + short_item_data_len(prefix);
            if after >= descriptor.len() {
                here
            } else {
                here + report_id_bytes(descriptor, after)
            }
        }
    }
}

/// `acc` followed by the elements of `s` that are new, each kept once, in order.
pub open spec fn append_new(acc: Seq<u8>, s: Seq<u8>) -> Seq<u8>
    decreases s.len(),
{
    if s.len() == 0 {
        acc
    } else {
        let acc2 = if acc.contains(s[0]) {
            acc
        } else {
            acc.push(s[0])
        };
        append_new(acc2, s.drop_first())
    }
}

/// The report IDs a descriptor declares, each once, in order of first appearance.
pub open spec fn declared_report_ids(descriptor: Seq<u8>) -> Seq<u8> {
    append_new(seq![], report_id_bytes(descriptor, 0))
}

proof fn lemma_append_new_step(acc: Seq<u8>, x: u8, rest: Seq<u8>)
    ensures
        append_new(acc, seq![x] + rest) == append_new(
            if acc.contains(x) {
                acc
            } else {
                acc.push(x)
            },
            rest,
        ),
{
    assert((seq![x] + rest)[0] == x);
    assert((seq![x] + rest).drop_first() =~= rest);
}

/// `append_new` keeps `acc` as a prefix, adds nothing twice, and holds exactly
/// the elements of `acc` and `s`.
pub proof fn lemma_append_new_properties(acc: Seq<u8>, s: Seq<u8>)
    ensures
        acc.no_duplicates() ==> append_new(acc, s).no_duplicates(),
        forall|x: u8| #[trigger]
            append_new(acc, s).contains(x) <==> (acc.contains(x) || s.contains(x)),
        append_new(acc, s).len() >= acc.len(),
        append_new(acc, s).subrange(0, acc.len() as int) == acc,
    decreases s.len(),
{
    if s.len() > 0 {
        let acc2 = if acc.contains(s[0]) {
            acc
        } else {
            acc.push(s[0])
        };
        lemma_append_new_properties(acc2, s.drop_first());
        assert forall|x: u8| #[trigger] append_new(acc, s).contains(x) <==> (acc.contains(x)
            || s.contains(x)) by {
            if s.contains(x) && !s.drop_first().contains(x) {
                let k = choose|k: int| 0 <= k < s.len() && s[k] == x;
                if k > 0 {
                    assert(s.drop_first()[k - 1] == x);
                }
                assert(acc2.contains(x)) by {
                    if !acc.contains(x) {
                        assert(acc2[acc.len() as int] == x);
                    }
                }
            }
            if s.drop_first().contains(x) {
                let k = choose|k: int| 0 <= k < s.drop_first().len() && s.drop_first()[k] == x;
                assert(s[k + 1] == x);
            }
            if acc2.contains(x) && !acc.contains(x) {
                assert(x == s[0]);
            }
            if acc.contains(x) {
                let k = choose|k: int| 0 <= k < acc.len() && acc[k] == x;
                assert(acc2[k] == x);
            }
        }
        if acc.no_duplicates() && !acc.contains(s[0]) {
            assert(acc2.no_duplicates()) by {
                assert forall|i: int, j: int|
                    0 <= i < acc2.len() && 0 <= j < acc2.len() && i != j implies acc2[i]
                    != acc2[j] by {
                    if i == acc.len() as int {
                        assert(!acc.contains(acc2[j]) || acc2[j] != s[0]);
                    } else if j == acc.len() as int {
                        assert(acc2[i] == acc[i]);
                    }
                }
            }
        }
        assert(append_new(acc, s).subrange(0, acc.len() as int) =~= acc) by {
            assert(append_new(acc2, s.drop_first()).subrange(0, acc2.len() as int) == acc2);
            assert forall|i: int| 0 <= i < acc.len() implies append_new(acc, s)[i] == acc[i] by {
                assert(append_new(acc, s).subrange(0, acc2.len() as int)[i] == acc2[i]);
            }
        }
    } else {
        assert(acc.subrange(0, acc.len() as int) =~= acc);
    }
}

/// The report IDs declared by Report ID items, each once, in order of first appearance.
pub fn extract_report_ids(descriptor: &[u8]) -> (ids: Vec<u8>)
    ensures
        ids@ == declared_report_ids(descriptor@),
        ids@.no_duplicates(),
        forall|x: u8| #[trigger] ids@.contains(x) <==> report_id_bytes(descriptor@, 0).contains(x),
{
    let ghost d = descriptor@;
    let mut ids: Vec<u8> = Vec::new();
    let mut index: usize = 0;
    let len = descriptor.len();
    while index < len
        invariant
            len == d.len(),
            d == descriptor@,
            index <= len,
            declared_report_ids(d) == append_new(ids@, report_id_bytes(d, index as int)),
        decreases len - index,
    {
        let ghost start = index as int;
        let prefix = descriptor[index];
        index = index + 1;
        if prefix == 0xFE {
            if len - index <= 1 {
                assert(report_id_bytes(d, start) =~= seq![]);
                index = len;
            } else {
                let size: usize = descriptor[index] as usize;
                if len - index <= 2 + size {
                    assert(report_id_bytes(d, start) =~= seq![]);
                    index = len;
                } else {
                    index = index + 2 + size;
                    assert(report_id_bytes(d, start) == report_id_bytes(d, index as int));
                }
            }
        } else {
            let code: u8 = prefix & 0x03;
            assert(prefix & 0x03 == prefix % 4) by (bit_vector);
            assert((prefix & 0xFC == 0x84) == (prefix / 4 == 0x21)) by (bit_vector);
            let size: usize = if code == 0 {
                0
            } else if code == 1 {
                1
            } else if code == 2 {
                2
            } else {
                4
            };
            assert(size == short_item_data_len(prefix));
            let ghost here: Seq<u8> = if is_report_id_prefix(prefix) && (index as int) < d.len() {
                seq![d[index as int]]
            } else {
                seq![]
            };
            let ghost rest: Seq<u8> = if index + size >= len {
                seq![]
            } else {
                report_id_bytes(d, index + size)
            };
            assert(report_id_bytes(d, start) =~= here + rest);
            if (prefix & 0xFC) == 0x84 && index < len {
                let report_id = descriptor[index];
                proof {
                    lemma_append_new_step(ids@, report_id, rest);
                }
                if !contains_byte(&ids, report_id) {
                    ids.push(report_id);
                }
            } else {
                assert(here + rest =~= rest);
            }
            if len - index <= size {
                index = len;
                assert(rest =~= seq![]);
                assert(report_id_bytes(d, index as int) =~= seq![]);
            } else {
                index = index + size;
            }
        }
    }
    assert(report_id_bytes(d, index as int) =~= seq![]);
    proof {
        lemma_append_new_properties(seq![], report_id_bytes(d, 0));
    }
    ids
}

/// The feature reports to probe on a device: the declared report IDs, or
/// report 0 alone when the descriptor declares none.
pub fn probe_report_ids(descriptor: &[u8]) -> (ids: Vec<u8>)
    ensures
        ids@ == if declared_report_ids(descriptor@).len() == 0 {
            seq![0u8]
        } else {
            declared_report_ids(descriptor@)
        },
{
    let mut ids = extract_report_ids(descriptor);
    if ids.len() == 0 {
        ids.push(0);
        assert(ids@ =~= seq![0u8]);
    }
    ids
}

/// Whether `value` occurs in `v`.
pub fn contains_byte(v: &Vec<u8>, value: u8) -> (found: bool)
    ensures
        found == v@.contains(value),
{
    let mut i: usize = 0;
    while i < v.len()
        invariant
            i <= v.len(),
            forall|j: int| 0 <= j < i ==> v@[j] != value,
        decreases v.len() - i,
    {
        if v[i] == value {
            return true;
        }
        i = i + 1;
    }
    false
}

/// The report IDs to probe on a collection: the configured ones when they are
/// set and only the configured collection is captured; otherwise the declared
/// ones followed by the configured ones not already among them.
pub fn feature_report_ids_for_descriptor(
    settings: &Settings,
    all_collections: bool,
    descriptor: &[u8],
) -> (ids: Vec<u8>)
    ensures
        ids@ == if !all_collections && settings.feature_report_ids@.len() > 0 {
            settings.feature_report_ids@
        } else {
            append_new(declared_report_ids(descriptor@), settings.feature_report_ids@)
        },
{
    if !all_collections && settings.feature_report_ids.len() > 0 {
        return copy_bytes(&settings.feature_report_ids);
    }
    let mut ids = extract_report_ids(descriptor);
    let extra = &settings.feature_report_ids;
    assert(extra@.subrange(0, extra@.len() as int) =~= extra@);
    let mut i: usize = 0;
    while i < extra.len()
        invariant
            i <= extra.len(),
            append_new(declared_report_ids(descriptor@), extra@) == append_new(
                ids@,
                extra@.subrange(i as int, extra@.len() as int),
            ),
        decreases extra.len() - i,
    {
        let id = extra[i];
        proof {
            assert(extra@.subrange(i as int, extra@.len() as int) =~= seq![id] + extra@.subrange(
                i + 1,
                extra@.len() as int,
            ));
            lemma_append_new_step(ids@, id, extra@.subrange(i + 1, extra@.len() as int));
        }
        if !contains_byte(&ids, id) {
            ids.push(id);
        }
        i = i + 1;
    }
    assert(extra@.subrange(i as int, extra@.len() as int) =~= seq![]);
    ids
}

/// A copy of `v` with the same elements.
pub fn copy_bytes(v: &Vec<u8>) -> (out: Vec<u8>)
    ensures
        out@ == v@,
{
    vstd::slice::slice_to_vec(v.as_slice())
}

/// What the walk continues with from position `k`: nothing past the end.
pub open spec fn walk_from(descriptor: Seq<u8>, k: int) -> Seq<u8> {
    if k >= descriptor.len() {
        seq![]
    } else {
        report_id_bytes(descriptor, k)
    }
}

/// The item grammar of a report descriptor, as the walk follows it. A short
/// item is its prefix byte followed by 0, 1, 2 or 4 data bytes for size code
/// (`prefix & 3`) 0, 1, 2 or 3; the walk resumes right after that data. A
/// Report ID item (prefix 0x84 to 0x87) declares its first data byte. A long
/// item (prefix 0xFE) is followed by its data size `s`, a tag, and `s` data
/// bytes, none of which is read as an item.
pub proof fn lemma_descriptor_item_lengths(descriptor: Seq<u8>, pos: int)
    requires
        0 <= pos < descriptor.len(),
    ensures
        ({
            let d = descriptor;
            let p = d[pos];
            let declared: Seq<u8> = if 0x84 <= p && p <= 0x87 && pos + 1 < d.len() {
                seq![d[pos + 1]]
            } else {
                seq![]
            };
            &&& p != 0xFE && p % 4 == 0 ==> report_id_bytes(d, pos) == declared + walk_from(d, pos + 1)
            &&& p != 0xFE && p % 4 == 1 ==> report_id_bytes(d, pos) == declared + walk_from(d, pos + 2)
            &&& p != 0xFE && p % 4 == 2 ==> report_id_bytes(d, pos) == declared + walk_from(d, pos + 3)
            &&& p != 0xFE && p % 4 == 3 ==> report_id_bytes(d, pos) == declared + walk_from(d, pos + 5)
            &&& p == 0xFE && pos + 2 < d.len() ==> report_id_bytes(d, pos) == walk_from(
                d,
                pos + 3 + d[pos + 1],
            )
            &&& p == 0xFE && pos + 2 >= d.len() ==> report_id_bytes(d, pos) == Seq::<u8>::empty()
        }),
{
    let p = descriptor[pos];
    assert((0x84 <= p && p <= 0x87) == (p / 4 == 0x21));
}

/// Report IDs appear in the order their items come and each only once; an ID
/// declared by a Report ID item is in the result, and nothing else is.
pub proof fn lemma_report_ids_of_consecutive_items(descriptor: Seq<u8>)
    ensures
        declared_report_ids(descriptor).no_duplicates(),
        forall|x: u8| #[trigger]
            declared_report_ids(descriptor).contains(x) <==> report_id_bytes(descriptor, 0).contains(x),
{
    lemma_append_new_properties(seq![], report_id_bytes(descriptor, 0));
}

} // verus!
