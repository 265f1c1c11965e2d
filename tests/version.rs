use portable_node::version::{
    compare_versions, decode_lts, find_node_js_lts_version, latest_version, LtsMarker,
    VersionError, VersionInfo,
};

fn info(version: &str, lts: bool) -> VersionInfo {
    VersionInfo { version: version.to_string(), lts }
}

#[test]
fn compare_versions_orders_by_residue() {
    assert!(compare_versions("v18.20.4", "v16.0.0").unwrap() > 0);
    assert_eq!(compare_versions("v1.0.0", "v1.0.0"), Ok(0));
    assert!(compare_versions("v1.0.0", "v2.0.0").unwrap() < 0);
    assert_eq!(compare_versions("v16.0.0", "v18.20.4"), Ok(-1));
    assert_eq!(compare_versions("v18.20.4", "v16.0.0"), Ok(1));
}

#[test]
fn compare_versions_reads_residue_as_integer() {
    // "v18.20.4" reads as 18204 and "v9.9.9" as 999
    assert_eq!(compare_versions("v18.20.4", "v9.9.9"), Ok(1));
    // "v1.10.0" reads as 1100 and "v2.0.0" as 200
    assert_eq!(compare_versions("v1.10.0", "v2.0.0"), Ok(1));
    assert_eq!(compare_versions("v-1.0", "v0.0"), Ok(-1));
    assert_eq!(compare_versions("+5", "v5"), Ok(0));
}

#[test]
fn compare_versions_rejects_non_numeric_residue() {
    assert_eq!(compare_versions("v1.0.0-rc1", "v1.0.0"), Err(VersionError::Parse));
    assert_eq!(compare_versions("v1.0.0", "latest"), Err(VersionError::Parse));
    assert_eq!(compare_versions("v...", "v1"), Err(VersionError::Parse));
    assert_eq!(compare_versions("-", "v1"), Err(VersionError::Parse));
    assert_eq!(compare_versions("v1", " 1"), Err(VersionError::Parse));
}

#[test]
fn compare_versions_respects_i32_range() {
    assert_eq!(compare_versions("2147483647", "v1"), Ok(1));
    assert_eq!(compare_versions("-2147483648", "v1"), Ok(-1));
    assert_eq!(compare_versions("2147483648", "v1"), Err(VersionError::Parse));
    assert_eq!(compare_versions("v1", "-2147483649"), Err(VersionError::Parse));
    assert_eq!(compare_versions("v99999999999999999999", "v1"), Err(VersionError::Parse));
}

#[test]
fn decode_lts_is_tolerant() {
    assert!(decode_lts(&LtsMarker::Text("true".to_string())));
    assert!(decode_lts(&LtsMarker::Text("ok".to_string())));
    assert!(!decode_lts(&LtsMarker::Text(String::new())));
    assert!(decode_lts(&LtsMarker::Text("banana".to_string())));
    assert!(decode_lts(&LtsMarker::Text("Iron".to_string())));
    assert!(decode_lts(&LtsMarker::Flag(true)));
    assert!(!decode_lts(&LtsMarker::Flag(false)));
}

#[test]
fn lts_selection_takes_first_lts_entry() {
    let index = vec![info("v20.11.0", decode_lts(&LtsMarker::Text("active".to_string()))), info("v21.0.0", false)];
    assert_eq!(find_node_js_lts_version(&index).unwrap(), "v20.11.0");
}

#[test]
fn lts_selection_skips_non_lts_entries() {
    let index = vec![info("v22.0.0", false), info("v20.11.0", true), info("v18.0.0", true)];
    assert_eq!(find_node_js_lts_version(&index).unwrap(), "v20.11.0");
}

#[test]
fn lts_selection_without_lts_entry_is_empty() {
    let index = vec![info("v22.0.0", false), info("v21.0.0", false)];
    assert_eq!(find_node_js_lts_version(&index).unwrap(), "");
    assert_eq!(find_node_js_lts_version(&Vec::new()).unwrap(), "");
}

#[test]
fn latest_version_keeps_highest_and_first_of_equals() {
    let v = |s: &str| s.to_string();
    assert_eq!(latest_version(&vec![v("v1.0.0"), v("v2.0.0"), v("v1.5.0")]).unwrap(), "v2.0.0");
    assert_eq!(latest_version(&vec![v("v2.0.0"), v("2.0.0")]).unwrap(), "v2.0.0");
    assert_eq!(latest_version(&vec![v("v3")]).unwrap(), "v3");
    assert_eq!(latest_version(&Vec::new()).unwrap(), "");
    assert_eq!(latest_version(&vec![v("v1"), v("next")]), Err(VersionError::Parse));
}
