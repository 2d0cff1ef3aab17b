use inzone_buds_battery_tray::cli::compare::{
    extension_kind, plan_state_comparison, CompareAction, CompareKind, StateFile,
};

fn file(key: &str) -> StateFile {
    let extension = key.rsplit_once('.').map(|(_, ext)| ext.to_string());
    StateFile { key: key.to_string(), extension }
}

#[test]
fn extensions_are_matched_ignoring_case() {
    assert_eq!(extension_kind("bin"), Some(CompareKind::Bytes));
    assert_eq!(extension_kind("BiN"), Some(CompareKind::Bytes));
    assert_eq!(extension_kind("TXT"), Some(CompareKind::Text));
    assert_eq!(extension_kind("csv"), None);
    assert_eq!(extension_kind("bins"), None);
    assert_eq!(extension_kind(""), None);
}

#[test]
fn state_directories_pair_by_relative_path() {
    let left = vec![
        file("descriptor.bin"),
        file("device_info.txt"),
        file("feature_a0.bin"),
        file("series_index.csv"),
    ];
    let right = vec![
        file("descriptor.bin"),
        file("device_info.txt"),
        file("input_000.txt"),
        file("series_index.csv"),
    ];
    assert_eq!(
        plan_state_comparison(&left, &right),
        vec![
            CompareAction::Compare { left: 0, right: 0, kind: CompareKind::Bytes },
            CompareAction::Compare { left: 1, right: 1, kind: CompareKind::Text },
            CompareAction::MissingOnRight(2),
            CompareAction::MissingOnLeft(2),
        ]
    );
}
