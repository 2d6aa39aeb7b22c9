use mcconvert_core::version::{find, from_data_version, is_supported_target, versions, DV_26_1};

#[test]
fn version_lookup() {
    assert_eq!(find("1.21.11").unwrap().data_version, 4671);
    assert_eq!(from_data_version(4786).unwrap().name, "26.1");
    assert!(find("1.13").is_none());
}

#[test]
fn supported_target_check() {
    assert!(is_supported_target(find("1.21.11").unwrap()));
    assert!(is_supported_target(find("1.18.2").unwrap()));
    assert!(!is_supported_target(find("26.1").unwrap()));
}

#[test]
fn every_version_found_by_name_and_data_version() {
    let table = versions();
    assert_eq!(table.len(), 20);
    for v in &table {
        assert_eq!(find(v.name), Some(*v));
        assert_eq!(from_data_version(v.data_version), Some(*v));
    }
    let targets: Vec<&str> = table.iter().filter(|v| is_supported_target(**v)).map(|v| v.name).collect();
    assert_eq!(targets.len(), 16);
    assert_eq!(targets[0], "1.18.2");
    assert_eq!(targets[15], "1.21.11");
    assert_eq!(DV_26_1, 4786);
    assert!(from_data_version(4787).is_none());
}
