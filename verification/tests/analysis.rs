use inzone_buds_battery_tray::cli::analysis::{
    analyze_feature_series, bucket_line, byte_differences, change_buckets, difference_line,
    offset_summary_line, sort_samples_by_index, ByteDifference, FeatureSeriesSample,
};

#[test]
fn dumps_differ_where_bytes_differ_or_are_missing() {
    let diffs = byte_differences(&[1, 2, 3], &[1, 9, 3, 4]);
    assert_eq!(
        diffs,
        vec![
            ByteDifference { offset: 1, left: Some(2), right: Some(9) },
            ByteDifference { offset: 3, left: None, right: Some(4) },
        ]
    );
    assert!(byte_differences(&[5, 6], &[5, 6]).is_empty());
    assert_eq!(difference_line(&diffs[1]), "offset 0x0003: left=- right=0x04 (4)");
}

fn sample(sample_index: usize, data: &[u8]) -> FeatureSeriesSample {
    FeatureSeriesSample { sample_index, data: data.to_vec() }
}

#[test]
fn series_changes_and_values() {
    let samples = vec![sample(0, &[1, 5, 7]), sample(1, &[1, 6, 7, 9]), sample(2, &[1, 5])];
    let a = analyze_feature_series(&samples);
    assert_eq!(a.change_counts, vec![0, 2, 1, 2]);
    assert_eq!(a.changed_offsets, vec![1, 2, 3]);
    assert_eq!(a.distinct_values[0], vec![1]);
    assert_eq!(a.distinct_values[1], vec![5, 6]);
    assert_eq!(a.distinct_values[2], vec![7]);
    assert_eq!(a.distinct_values[3], vec![9]);
}

#[test]
fn samples_sort_stably_by_index() {
    let sorted = sort_samples_by_index(vec![
        sample(3, &[3]),
        sample(1, &[1]),
        sample(3, &[4]),
        sample(0, &[0]),
    ]);
    let order: Vec<(usize, u8)> = sorted.iter().map(|s| (s.sample_index, s.data[0])).collect();
    assert_eq!(order, vec![(0, 0), (1, 1), (3, 3), (3, 4)]);
}

#[test]
fn buckets_group_changed_offsets() {
    assert_eq!(change_buckets(&[1, 2, 3, 4, 9, 11, 12]), vec![(0, 3), (4, 1), (8, 2), (12, 1)]);
    assert!(change_buckets(&[]).is_empty());
    assert_eq!(bucket_line(8, 2), "    0x0008-0x000B: 2 changed byte(s)");
}

#[test]
fn offset_summary_lists_values() {
    assert_eq!(
        offset_summary_line(0x12, 3, &[0x00, 0x64]),
        "  offset 0x0012: changes=3 distinct=2 values=00,64"
    );
}

#[test]
fn sort_keeps_equal_indexes_in_order() {
    let sorted = sort_samples_by_index(vec![
        sample(2, &[0xA]),
        sample(1, &[0xB]),
        sample(2, &[0xC]),
        sample(1, &[0xD]),
        sample(2, &[0xE]),
    ]);
    let data: Vec<u8> = sorted.iter().map(|s| s.data[0]).collect();
    assert_eq!(data, vec![0xB, 0xD, 0xA, 0xC, 0xE]);
}
