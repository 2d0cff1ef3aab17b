use inzone_buds_battery_tray::cli::series::{group_feature_series, SeriesFile};

fn file(device_key: &str, file_name: &str, data: &[u8]) -> SeriesFile {
    SeriesFile {
        device_key: device_key.to_string(),
        file_name: file_name.to_string(),
        data: data.to_vec(),
    }
}

#[test]
fn series_files_group_by_directory_and_report() {
    let files = vec![
        file("device_1", "feature_a1_000.bin", &[1]),
        file("device_0", "feature_a1_001.bin", &[2]),
        file("device_0", "series_index.csv", &[9]),
        file("device_0", "feature_a0_000.bin", &[3]),
        file("device_0", "feature_a1_000.bin", &[4]),
        file("device_0", "feature_a0_001.txt", &[5]),
        file(".", "feature_02_003.bin", &[6]),
    ];
    let groups = group_feature_series(&files);
    let keys: Vec<(String, u8)> =
        groups.iter().map(|g| (g.device_key.clone(), g.report_id)).collect();
    assert_eq!(
        keys,
        vec![
            (".".to_string(), 0x02),
            ("device_0".to_string(), 0xA0),
            ("device_0".to_string(), 0xA1),
            ("device_1".to_string(), 0xA1),
        ]
    );
    let a1: Vec<(usize, Vec<u8>)> = groups[2]
        .samples
        .iter()
        .map(|s| (s.sample_index, s.data.clone()))
        .collect();
    assert_eq!(a1, vec![(1, vec![2]), (0, vec![4])]);
    assert_eq!(groups[1].samples.len(), 1);
    assert_eq!(groups[0].samples[0].sample_index, 3);
}

#[test]
fn prefix_directories_come_first() {
    let files = vec![
        file("dev_10", "feature_01_000.bin", &[1]),
        file("dev_1", "feature_01_000.bin", &[2]),
        file("dev", "feature_01_000.bin", &[3]),
    ];
    let keys: Vec<String> = group_feature_series(&files)
        .into_iter()
        .map(|g| g.device_key)
        .collect();
    assert_eq!(keys, vec!["dev", "dev_1", "dev_10"]);
}
