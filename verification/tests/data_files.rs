use mcconvert_core::data_files::{
    convert_raids_file, copy_dat_rewrite_dataversion, copy_player_dat, is_dim_merge_file, is_shared_merge_file,
    read_wrapped_dat, snake_to_camel, snake_to_pascal, split_wrapper,
};
use mcconvert_core::error::Error;
use mcconvert_core::nbt::{contains_key, get, Nbt};
use mcconvert_core::report::Report;

fn df_compound(entries: Vec<(&str, Nbt)>) -> Vec<(String, Nbt)> {
    entries.into_iter().map(|(k, v)| (k.to_string(), v)).collect()
}

#[test]
fn case_conversion() {
    assert_eq!(snake_to_camel("keep_inventory"), "keepInventory");
    assert_eq!(snake_to_camel("raining"), "raining");
    assert_eq!(snake_to_pascal("dragon_killed"), "DragonKilled");
    assert_eq!(snake_to_pascal("gateways"), "Gateways");
}

#[test]
fn case_conversion_edges() {
    assert_eq!(snake_to_camel(""), "");
    assert_eq!(snake_to_camel("_a__b_"), "AB");
    assert_eq!(snake_to_pascal(""), "");
    assert_eq!(snake_to_pascal("_x"), "X");
    assert_eq!(snake_to_camel("ß_ß"), "ßSS");
}

#[test]
fn wrapper_unwrap() {
    let inner = df_compound(vec![("tick", Nbt::Int(3))]);
    let root = df_compound(vec![("DataVersion", Nbt::Int(4786)), ("data", Nbt::Compound(inner))]);

    let unwrapped = split_wrapper(root);
    assert_eq!(get(&unwrapped, "tick"), Some(&Nbt::Int(3)));

    let player = df_compound(vec![
        ("DataVersion", Nbt::Int(4786)),
        ("Health", Nbt::Float(20.0f32.to_bits())),
        ("Air", Nbt::Short(300)),
    ]);
    let kept = split_wrapper(player);
    assert_eq!(get(&kept, "Health"), Some(&Nbt::Float(20.0f32.to_bits())));
    assert!(contains_key(&kept, "Air"));
}

#[test]
fn wrapped_file_read() {
    assert_eq!(read_wrapped_dat(None, "x.dat"), Ok(None));
    assert_eq!(
        read_wrapped_dat(Some(Nbt::Int(0)), "x.dat"),
        Err(Error::Nbt { context: "x.dat".to_string(), message: "root tag is not a compound".to_string() })
    );
    let root = df_compound(vec![("data", Nbt::Compound(df_compound(vec![("a", Nbt::Byte(1))])))]);
    let read = read_wrapped_dat(Some(Nbt::Compound(root)), "x.dat").unwrap().unwrap();
    assert_eq!(get(&read, "a"), Some(&Nbt::Byte(1)));
}

#[test]
fn raids_file_renamed() {
    let inner = df_compound(vec![("tick", Nbt::Int(5)), ("next_id", Nbt::Int(2)), ("omen_level", Nbt::Int(1))]);
    let mut report = Report::default();
    let root = convert_raids_file(inner, 4671, &mut report);
    assert_eq!(get(&root, "DataVersion"), Some(&Nbt::Int(4671)));
    let unwrapped = split_wrapper(root);
    assert_eq!(get(&unwrapped, "Tick"), Some(&Nbt::Int(5)));
    assert_eq!(get(&unwrapped, "NextAvailableID"), Some(&Nbt::Int(2)));
    assert_eq!(get(&unwrapped, "OmenLevel"), Some(&Nbt::Int(1)));
    assert_eq!(
        report.warnings,
        vec!["Unknown key 'omen_level' in raids.dat converted to 'OmenLevel'.".to_string()]
    );
}

#[test]
fn data_version_rewritten_when_present() {
    let mut report = Report::default();
    let with = df_compound(vec![("DataVersion", Nbt::Int(4786))]);
    let out = copy_dat_rewrite_dataversion(Some(with), 3465, "a.dat", &mut report).unwrap();
    assert_eq!(get(&out, "DataVersion"), Some(&Nbt::Int(3465)));
    let without = df_compound(vec![("x", Nbt::Int(1))]);
    let out = copy_dat_rewrite_dataversion(Some(without), 3465, "a.dat", &mut report).unwrap();
    assert!(!contains_key(&out, "DataVersion"));
    assert!(report.warnings.is_empty());
    assert!(copy_dat_rewrite_dataversion(None, 3465, "b.dat", &mut report).is_none());
    assert_eq!(report.warnings, vec!["Could not parse b.dat as NBT; copied as-is.".to_string()]);
}

#[test]
fn player_file_downgraded() {
    let player = df_compound(vec![
        ("DataVersion", Nbt::Int(4786)),
        ("fall_distance", Nbt::Double(2.5f64.to_bits())),
    ]);
    let mut report = Report::default();
    let out = copy_player_dat(Some(player), 3465, "p.dat", &mut report).unwrap();
    assert_eq!(get(&out, "DataVersion"), Some(&Nbt::Int(3465)));
    assert_eq!(get(&out, "FallDistance"), Some(&Nbt::Float(2.5f32.to_bits())));
}

#[test]
fn merge_file_lists() {
    assert!(is_shared_merge_file("game_rules.dat"));
    assert!(!is_shared_merge_file("stopwatches.dat"));
    assert!(is_dim_merge_file("world_border.dat"));
    assert!(!is_dim_merge_file("raids.dat"));
}
