//! Gathering the files of a captured feature series into one group per
//! device directory and report ID.
use vstd::prelude::*;

use crate::cli::analysis::FeatureSeriesSample;
use crate::cli::descriptor::copy_bytes;
use crate::cli::format::{parse_feature_series_file_name, series_file_key};
use crate::text::str_chars;

verus! {

/// A file found under a series directory: the directory it lies in (relative
/// to the series directory, `.` for the top), its name, and its bytes.
#[derive(Debug, Clone)]
pub struct SeriesFile {
    pub device_key: String,
    pub file_name: String,
    pub data: Vec<u8>,
}

/// The samples of one report of one device, in the order their files came.
#[derive(Debug, Clone)]
pub struct FeatureSeriesGroup {
    pub device_key: String,
    pub report_id: u8,
    pub samples: Vec<FeatureSeriesSample>,
}

/// Lexicographic order of character sequences: a proper prefix comes first.
pub open spec fn chars_less(a: Seq<char>, b: Seq<char>) -> bool
    decreases a.len(),
{
    if a.len() == 0 {
        b.len() > 0
    } else if b.len() == 0 {
        false
    } else if a[0] != b[0] {
        a[0] < b[0]
    } else {
        chars_less(a.drop_first(), b.drop_first())
    }
}

/// Groups are ordered by device directory, then by report ID.
pub open spec fn key_less(a: (Seq<char>, u8), b: (Seq<char>, u8)) -> bool {
    chars_less(a.0, b.0) || (a.0 == b.0 && a.1 < b.1)
}

pub open spec fn group_key(g: FeatureSeriesGroup) -> (Seq<char>, u8) {
    (g.device_key@, g.report_id)
}

pub open spec fn samples_view(v: Seq<FeatureSeriesSample>) -> Seq<(usize, Seq<u8>)> {
    v.map_values(|s: FeatureSeriesSample| (s.sample_index, s.data@))
}

/// The samples, in order, of the first `n` files that name a sample of
/// report `id` and lie in directory `key`.
pub open spec fn samples_for(files: Seq<SeriesFile>, key: Seq<char>, id: u8, n: int) -> Seq<
    (usize, Seq<u8>),
>
    decreases n,
{
    if n <= 0 {
        seq![]
    } else {
        let before = samples_for(files, key, id, n - 1);
        let f = files[n - 1];
        match series_file_key(f.file_name@) {
            Some((r, s)) => if f.device_key@ == key && r == id {
                before.push((s, f.data@))
            } else {
                before
            },
            None => before,
        }
    }
}

pub open spec fn has_group(groups: Seq<FeatureSeriesGroup>, key: Seq<char>, id: u8) -> bool {
    exists|i: int| 0 <= i < groups.len() && #[trigger] group_key(groups[i]) == (key, id)
}

proof fn lemma_chars_less_irreflexive(a: Seq<char>)
    ensures
        !chars_less(a, a),
    decreases a.len(),
{
    if a.len() > 0 {
        lemma_chars_less_irreflexive(a.drop_first());
    }
}

proof fn lemma_chars_less_trichotomy(a: Seq<char>, b: Seq<char>)
    ensures
        a != b ==> chars_less(a, b) || chars_less(b, a),
        !(chars_less(a, b) && chars_less(b, a)),
    decreases a.len(),
{
    if a.len() > 0 && b.len() > 0 && a[0] == b[0] {
        lemma_chars_less_trichotomy(a.drop_first(), b.drop_first());
        if a.drop_first() == b.drop_first() {
            assert(a =~= b) by {
                assert forall|i: int| 0 <= i < a.len() implies a[i] == b[i] by {
                    if i > 0 {
                        assert(a[i] == a.drop_first()[i - 1]);
                        assert(b[i] == b.drop_first()[i - 1]);
                    }
                }
            }
        }
    } else if a.len() == 0 && b.len() == 0 {
        assert(a =~= b);
    }
}

proof fn lemma_chars_less_transitive(a: Seq<char>, b: Seq<char>, c: Seq<char>)
    requires
        chars_less(a, b),
        chars_less(b, c),
    ensures
        chars_less(a, c),
    decreases a.len(),
{
    if a.len() > 0 && a[0] == b[0] && b[0] == c[0] {
        lemma_chars_less_transitive(a.drop_first(), b.drop_first(), c.drop_first());
    }
}

proof fn lemma_key_order(a: (Seq<char>, u8), b: (Seq<char>, u8), c: (Seq<char>, u8))
    ensures
        !key_less(a, a),
        a != b ==> key_less(a, b) || key_less(b, a),
        !(key_less(a, b) && key_less(b, a)),
        key_less(a, b) && key_less(b, c) ==> key_less(a, c),
{
    lemma_chars_less_irreflexive(a.0);
    lemma_chars_less_trichotomy(a.0, b.0);
    if chars_less(a.0, b.0) && chars_less(b.0, c.0) {
        lemma_chars_less_transitive(a.0, b.0, c.0);
    }
    if a.0 == b.0 && b.0 != c.0 {
        lemma_chars_less_trichotomy(b.0, c.0);
    }
    if a.0 != b.0 && b.0 == c.0 {
        lemma_chars_less_trichotomy(a.0, b.0);
    }
}

/// Whether `a` comes before `b` in lexicographic order.
fn chars_before(a: &Vec<char>, b: &Vec<char>) -> (less: bool)
    ensures
        less == chars_less(a@, b@),
{
    let mut i: usize = 0;
    assert(a@.skip(0) =~= a@);
    assert(b@.skip(0) =~= b@);
    while i < a.len() && i < b.len() && a[i] == b[i]
        invariant
            i <= a.len(),
            i <= b.len(),
            chars_less(a@, b@) == chars_less(a@.skip(i as int), b@.skip(i as int)),
        decreases a.len() - i,
    {
        assert(a@.skip(i as int).drop_first() =~= a@.skip(i + 1));
        assert(b@.skip(i as int).drop_first() =~= b@.skip(i + 1));
        i = i + 1;
    }
    if i == a.len() {
        i < b.len()
    } else if i == b.len() {
        false
    } else {
        a[i] < b[i]
    }
}

/// Whether group `g` comes before the group of `key` and `id`.
fn group_before(g: &FeatureSeriesGroup, key_chars: &Vec<char>, key: &String, id: u8) -> (b: bool)
    requires
        key_chars@ == key@,
    ensures
        b == key_less(group_key(*g), (key@, id)),
{
    let g_chars = str_chars(g.device_key.as_str());
    chars_before(&g_chars, key_chars) || (g.device_key == *key && g.report_id < id)
}

/// Groups the files that name a feature-series sample
/// (`feature_<id>_<index>.bin`) by directory and report ID: one group for
/// each such pair that occurs, ordered by directory and then report ID, each
/// holding the samples of its files in the order the files came. Other files
/// are left out.
pub fn group_feature_series(files: &Vec<SeriesFile>) -> (groups: Vec<FeatureSeriesGroup>)
    ensures
        forall|i: int, j: int|
            0 <= i < j < groups@.len() ==> key_less(
                #[trigger] group_key(groups@[i]),
                #[trigger] group_key(groups@[j]),
            ),
        forall|i: int|
            0 <= i < groups@.len() ==> samples_view(#[trigger] groups@[i].samples@) == samples_for(
                files@,
                groups@[i].device_key@,
                groups@[i].report_id,
                files@.len() as int,
            ) && groups@[i].samples@.len() > 0,
        forall|key: Seq<char>, id: u8|
            #![trigger has_group(groups@, key, id)]
            #![trigger samples_for(files@, key, id, files@.len() as int)]
            has_group(groups@, key, id) <==> samples_for(files@, key, id, files@.len() as int).len()
                > 0,
{
    let mut groups: Vec<FeatureSeriesGroup> = Vec::new();
    let mut t: usize = 0;
    while t < files.len()
        invariant
            t <= files.len(),
            forall|i: int, j: int|
                0 <= i < j < groups@.len() ==> key_less(
                    #[trigger] group_key(groups@[i]),
                    #[trigger] group_key(groups@[j]),
                ),
            forall|i: int|
                0 <= i < groups@.len() ==> samples_view(#[trigger] groups@[i].samples@)
                    == samples_for(files@, groups@[i].device_key@, groups@[i].report_id, t as int),
            forall|key: Seq<char>, id: u8|
                #![trigger has_group(groups@, key, id)]
                #![trigger samples_for(files@, key, id, t as int)]
                has_group(groups@, key, id) <==> samples_for(files@, key, id, t as int).len() > 0,
        decreases files.len() - t,
    {
        let f = &files[t];
        let parsed = parse_feature_series_file_name(f.file_name.as_str());
        let ghost old_groups = groups@;
        match parsed {
            None => {
                assert forall|key: Seq<char>, id: u8|
                    samples_for(files@, key, id, t + 1) == samples_for(files@, key, id, t as int) by {}
            },
            Some((report_id, sample_index)) => {
                let ghost new_key = (f.device_key@, report_id);
                let sample = FeatureSeriesSample { sample_index, data: copy_bytes(&f.data) };
                assert forall|key: Seq<char>, id: u8|
                    samples_for(files@, key, id, t + 1) == if key == f.device_key@ && id == report_id {
                        samples_for(files@, key, id, t as int).push((sample_index, f.data@))
                    } else {
                        samples_for(files@, key, id, t as int)
                    } by {}
                let key_chars = str_chars(f.device_key.as_str());
                let mut i: usize = 0;
                while i < groups.len() && group_before(&groups[i], &key_chars, &f.device_key, report_id)
                    invariant
                        i <= groups@.len(),
                        groups@ == old_groups,
                        key_chars@ == f.device_key@,
                        new_key == (f.device_key@, report_id),
                        forall|j: int| 0 <= j < i ==> key_less(#[trigger] group_key(groups@[j]), new_key),
                    decreases groups.len() - i,
                {
                    i = i + 1;
                }
                if i < groups.len() && groups[i].device_key == f.device_key && groups[i].report_id
                    == report_id {
                    let mut g = groups.remove(i);
                    let ghost before = g.samples@;
                    g.samples.push(sample);
                    assert(samples_view(g.samples@) =~= samples_view(before).push(
                        (sample_index, f.data@),
                    ));
                    groups.insert(i, g);
                    assert(groups@ =~= old_groups.update(i as int, g));
                    assert forall|a: int| 0 <= a < groups@.len() implies group_key(#[trigger] groups@[a])
                        == group_key(old_groups[a]) by {}
                    assert forall|a: int|
                        0 <= a < groups@.len() && a != i implies group_key(#[trigger] groups@[a])
                        != new_key by {
                        lemma_key_order(group_key(old_groups[a]), new_key, new_key);
                        if a < i {
                            lemma_key_order(group_key(old_groups[a]), group_key(old_groups[i as int]), new_key);
                        } else {
                            lemma_key_order(group_key(old_groups[i as int]), group_key(old_groups[a]), new_key);
                        }
                    }
                    assert forall|key: Seq<char>, id: u8|
                        #![trigger has_group(groups@, key, id)]
                        has_group(groups@, key, id) == has_group(old_groups, key, id) by {
                        if has_group(groups@, key, id) {
                            let a = choose|a: int| 0 <= a < groups@.len() && #[trigger] group_key(groups@[a]) == (key, id);
                            assert(group_key(old_groups[a]) == (key, id));
                        }
                        if has_group(old_groups, key, id) {
                            let a = choose|a: int| 0 <= a < old_groups.len() && #[trigger] group_key(old_groups[a]) == (key, id);
                            assert(group_key(groups@[a]) == (key, id));
                        }
                    }
                } else {
                    proof {
                        if i < groups.len() {
                            lemma_key_order(group_key(groups@[i as int]), new_key, new_key);
                        }
                        assert(!has_group(old_groups, f.device_key@, report_id)) by {
                            if has_group(old_groups, f.device_key@, report_id) {
                                let a = choose|a: int| 0 <= a < old_groups.len() && #[trigger] group_key(old_groups[a]) == new_key;
                                lemma_key_order(new_key, new_key, new_key);
                                if a < i {
                                } else if a > i {
                                    lemma_key_order(group_key(old_groups[i as int]), new_key, new_key);
                                    assert(key_less(group_key(old_groups[i as int]), group_key(old_groups[a])));
                                }
                            }
                        }
                        assert forall|j: int| i <= j < old_groups.len() implies key_less(
                            new_key,
                            #[trigger] group_key(old_groups[j]),
                        ) by {
                            lemma_key_order(group_key(old_groups[i as int]), new_key, new_key);
                            lemma_key_order(new_key, group_key(old_groups[i as int]), group_key(old_groups[j]));
                        }
                    }
                    let mut samples: Vec<FeatureSeriesSample> = Vec::new();
                    samples.push(sample);
                    let g = FeatureSeriesGroup {
                        device_key: f.device_key.clone(),
                        report_id,
                        samples,
                    };
                    assert(samples_view(g.samples@) =~= seq![(sample_index, f.data@)]);
                    assert(samples_for(files@, f.device_key@, report_id, t as int) =~= seq![]);
                    groups.insert(i, g);
                    assert forall|a: int, b: int|
                        0 <= a < b < groups@.len() implies key_less(
                        #[trigger] group_key(groups@[a]),
                        #[trigger] group_key(groups@[b]),
                    ) by {
                        if b < i {
                            assert(groups@[a] == old_groups[a] && groups@[b] == old_groups[b]);
                        } else if b == i {
                            assert(groups@[a] == old_groups[a]);
                        } else if a < i {
                            assert(groups@[a] == old_groups[a] && groups@[b] == old_groups[b - 1]);
                            lemma_key_order(group_key(old_groups[a]), new_key, group_key(old_groups[b - 1]));
                        } else if a == i {
                            assert(groups@[b] == old_groups[b - 1]);
                        } else {
                            assert(groups@[a] == old_groups[a - 1] && groups@[b] == old_groups[b - 1]);
                        }
                    }
                    assert forall|a: int| 0 <= a < groups@.len() && a != i implies group_key(
                        #[trigger] groups@[a],
                    ) != new_key by {
                        let o = if a < i { a } else { a - 1 };
                        assert(groups@[a] == old_groups[o]);
                        assert(!has_group(old_groups, f.device_key@, report_id));
                        if group_key(old_groups[o]) == new_key {
                            assert(has_group(old_groups, f.device_key@, report_id));
                        }
                    }
                    assert forall|key: Seq<char>, id: u8|
                        #![trigger has_group(groups@, key, id)]
                        has_group(groups@, key, id) == (has_group(old_groups, key, id) || (key, id)
                            == new_key) by {
                        if has_group(groups@, key, id) {
                            let a = choose|a: int| 0 <= a < groups@.len() && #[trigger] group_key(groups@[a]) == (key, id);
                            if a < i {
                                assert(groups@[a] == old_groups[a]);
                            } else if a > i {
                                assert(groups@[a] == old_groups[a - 1]);
                            }
                        }
                        if has_group(old_groups, key, id) {
                            let a = choose|a: int| 0 <= a < old_groups.len() && #[trigger] group_key(old_groups[a]) == (key, id);
                            if a < i {
                                assert(groups@[a] == old_groups[a]);
                            } else {
                                assert(groups@[a + 1] == old_groups[a]);
                            }
                        }
                        if (key, id) == new_key {
                            assert(group_key(groups@[i as int]) == (key, id));
                        }
                    }
                }
            },
        }
        t = t + 1;
    }
    assert forall|i: int| 0 <= i < groups@.len() implies #[trigger] groups@[i].samples@.len() > 0 by {
        assert(has_group(groups@, groups@[i].device_key@, groups@[i].report_id)) by {
            assert(group_key(groups@[i]) == (groups@[i].device_key@, groups@[i].report_id));
        }
        assert(samples_for(files@, groups@[i].device_key@, groups@[i].report_id, files@.len() as int).len() > 0);
        assert(samples_view(groups@[i].samples@).len() == groups@[i].samples@.len());
    }
    groups
}

} // verus!
