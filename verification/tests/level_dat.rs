use mcconvert_core::level_dat::{
    apply_difficulty, apply_spawn, apply_version_tags, convert_game_rules, downgrade_level_dat, embed_player,
    format_uuid, merge_dimension_files, merge_shared_files, split_level_root, SharedData,
};
use mcconvert_core::error::Error;
use mcconvert_core::nbt::{contains_key, get, Nbt};
use mcconvert_core::report::Report;
use mcconvert_core::version;

fn ld_compound(entries: Vec<(&str, Nbt)>) -> Vec<(String, Nbt)> {
    entries.into_iter().map(|(k, v)| (k.to_string(), v)).collect()
}

fn ld_str(s: &str) -> Nbt {
    Nbt::String(s.to_string())
}

#[test]
fn difficulty_and_hardcore_conversion() {
    let ds = ld_compound(vec![
        ("difficulty", ld_str("hard")),
        ("hardcore", Nbt::Byte(1)),
        ("locked", Nbt::Byte(0)),
    ]);
    let mut data = ld_compound(vec![("difficulty_settings", Nbt::Compound(ds))]);

    let mut report = Report::default();
    apply_difficulty(&mut data, &mut report);

    assert_eq!(get(&data, "Difficulty"), Some(&Nbt::Byte(3)));
    assert_eq!(get(&data, "DifficultyLocked"), Some(&Nbt::Byte(0)));
    assert_eq!(get(&data, "hardcore"), Some(&Nbt::Byte(1)));
    assert!(!contains_key(&data, "difficulty_settings"));
    assert!(report.warnings.is_empty());
}

#[test]
fn unknown_difficulty_falls_back_to_normal() {
    let ds = ld_compound(vec![("difficulty", ld_str("brutal"))]);
    let mut data = ld_compound(vec![("difficulty_settings", Nbt::Compound(ds))]);
    let mut report = Report::default();
    apply_difficulty(&mut data, &mut report);
    assert_eq!(get(&data, "Difficulty"), Some(&Nbt::Byte(2)));
    assert_eq!(report.warnings, vec!["Unknown difficulty 'brutal' — falling back to normal.".to_string()]);

    let mut odd = ld_compound(vec![("difficulty_settings", Nbt::Int(3))]);
    let mut report = Report::default();
    apply_difficulty(&mut odd, &mut report);
    assert_eq!(get(&odd, "Difficulty"), Some(&Nbt::Byte(2)));
    assert!(!contains_key(&odd, "DifficultyLocked"));
    assert_eq!(report.warnings.len(), 1);
}

#[test]
fn spawn_conversion() {
    let spawn = ld_compound(vec![
        ("dimension", ld_str("minecraft:overworld")),
        ("pos", Nbt::IntArray(vec![10, 69, -3])),
        ("yaw", Nbt::Float(90.0f32.to_bits())),
        ("pitch", Nbt::Float(0.0f32.to_bits())),
    ]);
    let mut data = ld_compound(vec![("spawn", Nbt::Compound(spawn))]);

    let mut report = Report::default();
    apply_spawn(&mut data, &mut report);

    assert_eq!(get(&data, "SpawnX"), Some(&Nbt::Int(10)));
    assert_eq!(get(&data, "SpawnY"), Some(&Nbt::Int(69)));
    assert_eq!(get(&data, "SpawnZ"), Some(&Nbt::Int(-3)));
    assert_eq!(get(&data, "SpawnAngle"), Some(&Nbt::Float(90.0f32.to_bits())));
    assert!(!contains_key(&data, "spawn"));
}

#[test]
fn spawn_outside_overworld_reported() {
    let spawn = ld_compound(vec![("dimension", ld_str("minecraft:the_nether"))]);
    let mut data = ld_compound(vec![("spawn", Nbt::Compound(spawn))]);
    let mut report = Report::default();
    apply_spawn(&mut data, &mut report);
    assert_eq!(
        report.warnings,
        vec!["World spawn is in dimension 'minecraft:the_nether', but older versions only support overworld spawns."
            .to_string()]
    );
}

#[test]
fn game_rule_conversion() {
    let rules = vec![
        ("minecraft:keep_inventory".to_string(), Nbt::Byte(1), String::new()),
        ("minecraft:advance_time".to_string(), Nbt::Byte(0), String::new()),
        ("minecraft:random_tick_speed".to_string(), Nbt::Int(3), String::new()),
        ("minecraft:raids".to_string(), Nbt::Byte(1), String::new()),
        ("minecraft:elytra_movement_check".to_string(), Nbt::Byte(0), String::new()),
    ];

    let mut report = Report::default();
    let converted = convert_game_rules(rules, &mut report);

    assert_eq!(get(&converted, "keepInventory"), Some(&ld_str("true")));
    assert_eq!(get(&converted, "doDaylightCycle"), Some(&ld_str("false")));
    assert_eq!(get(&converted, "randomTickSpeed"), Some(&ld_str("3")));
    assert_eq!(get(&converted, "disableRaids"), Some(&ld_str("false")));
    assert_eq!(get(&converted, "disableElytraMovementCheck"), Some(&ld_str("true")));
}

#[test]
fn game_rule_without_text_value_skipped() {
    let rules = vec![
        ("minecraft:spawn_chunk_radius".to_string(), Nbt::Long(-2), String::new()),
        ("minecraft:odd".to_string(), Nbt::Short(4), "Short(4)".to_string()),
    ];
    let mut report = Report::default();
    let converted = convert_game_rules(rules, &mut report);
    assert_eq!(converted.len(), 1);
    assert_eq!(get(&converted, "spawnChunkRadius"), Some(&ld_str("-2")));
    assert_eq!(
        report.warnings,
        vec!["Could not interpret value (Short(4)) of game rule 'minecraft:odd'; skipping.".to_string()]
    );
}

#[test]
fn uuid_format() {
    assert_eq!(format_uuid(&[0, 0, 0, 1]), "00000000-0000-0000-0000-000000000001");
    assert_eq!(
        format_uuid(&[-1843843886, 1685802836, -1916530805, 1963746845]),
        "92192cd2-647b-4f54-8dc4-0f8b750c661d"
    );
}

#[test]
fn uuid_keeps_last_four_parts() {
    assert_eq!(format_uuid(&[]), "00000000-0000-0000-0000-000000000000");
    assert_eq!(format_uuid(&[7, 0, 0, 0, 1]), "00000000-0000-0000-0000-000000000001");
    assert_eq!(format_uuid(&[-1]), "00000000-0000-0000-0000-0000ffffffff");
}

#[test]
fn version_tag_reset() {
    let mut data = Vec::new();
    let target = version::find("1.21.11").unwrap();
    apply_version_tags(&mut data, target);

    assert_eq!(get(&data, "DataVersion"), Some(&Nbt::Int(4671)));
    let Some(Nbt::Compound(v)) = get(&data, "Version") else {
        panic!("missing Version compound");
    };
    assert_eq!(get(v, "Name"), Some(&ld_str("1.21.11")));
}

#[test]
fn shared_files_merged_into_level_data() {
    let weather = ld_compound(vec![("rain_time", Nbt::Int(1234)), ("mystery", Nbt::Byte(1))]);
    let clock = ld_compound(vec![("total_ticks", Nbt::Long(1000))]);
    let clocks = ld_compound(vec![("minecraft:overworld", Nbt::Compound(clock))]);
    let scheduled = ld_compound(vec![("events", Nbt::List(Vec::new()))]);
    let shared = SharedData {
        game_rules: None,
        weather: Some(weather),
        world_gen_settings: None,
        custom_boss_events: None,
        scheduled_events: Some(scheduled),
        world_clocks: Some(clocks),
        wandering_trader: None,
    };
    let mut data = ld_compound(vec![("singleplayer_uuid", Nbt::IntArray(vec![0, 0, 0, 1]))]);
    let mut report = Report::default();
    let uuid = downgrade_level_dat(&mut data, shared, None, None, &mut report);
    assert_eq!(uuid, Some("00000000-0000-0000-0000-000000000001".to_string()));
    assert_eq!(get(&data, "rainTime"), Some(&Nbt::Int(1234)));
    assert_eq!(get(&data, "mystery"), Some(&Nbt::Byte(1)));
    assert_eq!(get(&data, "DayTime"), Some(&Nbt::Long(1000)));
    assert_eq!(get(&data, "ScheduledEvents"), Some(&Nbt::List(Vec::new())));
    assert!(!contains_key(&data, "singleplayer_uuid"));
    assert_eq!(
        report.warnings,
        vec!["Unknown key 'mystery' in weather.dat merged with its original name.".to_string()]
    );
}

#[test]
fn dimension_files_merged_into_level_data() {
    let fight = ld_compound(vec![("dragon_killed", Nbt::Byte(1)), ("new_thing", Nbt::Int(2))]);
    let border = ld_compound(vec![
        ("size", Nbt::Double(100.0f64.to_bits())),
        ("warning_blocks", Nbt::Int(5)),
        ("shape", Nbt::Int(1)),
    ]);
    let mut data = Vec::new();
    let mut report = Report::default();
    merge_dimension_files(&mut data, Some(fight), Some(border), &mut report);
    let Some(Nbt::Compound(df)) = get(&data, "DragonFight") else {
        panic!("missing DragonFight")
    };
    assert_eq!(get(df, "DragonKilled"), Some(&Nbt::Byte(1)));
    assert_eq!(get(df, "NewThing"), Some(&Nbt::Int(2)));
    assert_eq!(get(&data, "BorderSize"), Some(&Nbt::Double(100.0f64.to_bits())));
    assert_eq!(get(&data, "BorderWarningBlocks"), Some(&Nbt::Double(5.0f64.to_bits())));
    assert!(!contains_key(&data, "shape"));
    assert_eq!(
        report.warnings,
        vec![
            "Unknown key 'new_thing' in ender_dragon_fight.dat converted to 'NewThing'.".to_string(),
            "Unknown key 'shape' in world_border.dat was ignored.".to_string(),
        ]
    );
}

#[test]
fn singleplayer_embedded() {
    let player = ld_compound(vec![("DataVersion", Nbt::Int(4786)), ("fall_distance", Nbt::Double(0))]);
    let mut data = Vec::new();
    let mut report = Report::default();
    embed_player(&mut data, "u", Some((Nbt::Compound(player), "p.dat".to_string())), 4671, &mut report);
    let Some(Nbt::Compound(p)) = get(&data, "Player") else {
        panic!("missing Player")
    };
    assert_eq!(get(p, "DataVersion"), Some(&Nbt::Int(4671)));

    let mut data = Vec::new();
    embed_player(&mut data, "abc", None, 4671, &mut report);
    assert!(!contains_key(&data, "Player"));
    assert_eq!(
        report.warnings,
        vec!["Could not find the singleplayer data file (uuid: abc). The world may start with a fresh player in older versions."
            .to_string()]
    );
}

#[test]
fn level_root_checked() {
    assert_eq!(
        split_level_root(Nbt::Int(1)).err(),
        Some(Error::Nbt { context: "level.dat".to_string(), message: "root tag is not a compound".to_string() })
    );
    assert_eq!(
        split_level_root(Nbt::Compound(Vec::new())).err(),
        Some(Error::Nbt { context: "level.dat".to_string(), message: "missing Data compound".to_string() })
    );
    let root = ld_compound(vec![("Data", Nbt::Compound(ld_compound(vec![("x", Nbt::Int(1))])))]);
    let (rest, data) = split_level_root(Nbt::Compound(root)).unwrap();
    assert!(rest.is_empty());
    assert_eq!(get(&data, "x"), Some(&Nbt::Int(1)));
}

#[test]
fn end_world_clock_dropped_with_warning() {
    let overworld = ld_compound(vec![("total_ticks", Nbt::Long(77))]);
    let end = ld_compound(vec![("total_ticks", Nbt::Long(5))]);
    let clocks = ld_compound(vec![
        ("minecraft:overworld", Nbt::Compound(overworld)),
        ("minecraft:the_end", Nbt::Compound(end)),
    ]);
    let shared = SharedData {
        game_rules: None,
        weather: None,
        world_gen_settings: None,
        custom_boss_events: None,
        scheduled_events: None,
        world_clocks: Some(clocks),
        wandering_trader: None,
    };
    let mut data = Vec::new();
    let mut report = Report::default();
    merge_shared_files(&mut data, shared, &mut report);
    assert_eq!(get(&data, "DayTime"), Some(&Nbt::Long(77)));
    assert_eq!(
        report.warnings,
        vec!["World clock 'minecraft:the_end' has no equivalent in older versions and was dropped.".to_string()]
    );
    assert_eq!(report.dropped_data, 0);
}
