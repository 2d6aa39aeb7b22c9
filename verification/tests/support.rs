use mcconvert_core::data_files::{snake_to_camel, snake_to_pascal};
use mcconvert_core::layout::{data_entry_action, DataEntryAction};
use mcconvert_core::codec::{compress_nbt_bytes, decompress_nbt_bytes, detect_compression, Compression};
use mcconvert_core::error::Error;
use mcconvert_core::layout::{
    copies_root_entry, detect_layout, dim_data_action, dim_entry_action, dimension_mapping, map_file_target,
    players_subdir, raids_file_name, shared_data_action, DimDataAction, DimEntryAction, DimKind, Layout,
    SharedDataAction,
};
use mcconvert_core::nbt::Nbt;
use mcconvert_core::pipeline::{
    check_output, check_world, convert_batch, count_succeeded, finish_report, inspect, resolve_target, start_report,
    BatchOutcome, WorldInfo,
};
use mcconvert_core::report::Report;
use mcconvert_core::version::find;

#[test]
fn error_codes_and_messages() {
    let io = Error::io("world/level.dat", "No such file or directory");
    assert_eq!(io.code(), "E10");
    assert_eq!(io.exit_code(), 10);
    assert_eq!(io.message(), "I/O error (world/level.dat): No such file or directory");
    let nbt = Error::nbt("level.dat", "missing Data compound");
    assert_eq!(nbt.code(), "E20");
    assert_eq!(nbt.exit_code(), 20);
    assert_eq!(nbt.message(), "NBT error (level.dat): missing Data compound");
    let invalid = Error::InvalidWorld("x".to_string());
    assert_eq!((invalid.code(), invalid.exit_code()), ("E30", 30));
    assert_eq!(invalid.message(), "invalid world: x");
    let target = Error::UnsupportedTarget("y".to_string());
    assert_eq!((target.code(), target.exit_code()), ("E40", 40));
    assert_eq!(target.message(), "unsupported target version: y");
    let output = Error::Output("z".to_string());
    assert_eq!((output.code(), output.exit_code()), ("E50", 50));
    assert_eq!(output.message(), "output folder error: z");
}

#[test]
fn report_merge_adds_counters() {
    let mut a = Report::default();
    a.warn("one".to_string());
    a.chunks_rewritten = 2;
    let mut b = Report::default();
    b.warn("two".to_string());
    b.chunks_rewritten = 3;
    b.region_files = 1;
    a.merge(b);
    assert_eq!(a.warnings, vec!["one".to_string(), "two".to_string()]);
    assert_eq!(a.chunks_rewritten, 5);
    assert_eq!(a.region_files, 1);
}

#[test]
fn warnings_deduplicated_in_order() {
    let mut r = Report::default();
    for w in ["b", "a", "b", "c", "a"] {
        r.warn(w.to_string());
    }
    r.dedup_warnings();
    assert_eq!(r.warnings, vec!["b".to_string(), "a".to_string(), "c".to_string()]);
    r.dedup_warnings();
    assert_eq!(r.warnings.len(), 3);
}

#[test]
fn gzip_round_trip() {
    let raw = vec![10u8, 0, 0, 0];
    let packed = compress_nbt_bytes(&raw, "out.dat").unwrap();
    assert_eq!(detect_compression(&packed), Compression::Gzip);
    assert_ne!(packed, raw);
    assert_eq!(decompress_nbt_bytes(&packed, "out.dat").unwrap(), raw);
}

#[test]
fn compression_detected_by_first_bytes() {
    assert_eq!(detect_compression(&[0x1f, 0x8b, 8]), Compression::Gzip);
    assert_eq!(detect_compression(&[0x78, 0x9c]), Compression::Zlib);
    assert_eq!(detect_compression(&[0x1f]), Compression::Raw);
    assert_eq!(detect_compression(&[]), Compression::Raw);
    assert_eq!(decompress_nbt_bytes(&[10, 0, 0, 0], "x").unwrap(), vec![10, 0, 0, 0]);
    match decompress_nbt_bytes(&[0x1f, 0x8b, 0, 0], "broken.dat") {
        Err(Error::Nbt { context, .. }) => assert_eq!(context, "broken.dat"),
        other => panic!("unexpected {:?}", other),
    }
    match decompress_nbt_bytes(&[0x78, 0x00, 0x01], "broken.mca") {
        Err(Error::Nbt { context, .. }) => assert_eq!(context, "broken.mca"),
        other => panic!("unexpected {:?}", other),
    }
}

#[test]
fn layout_detected() {
    assert_eq!(detect_layout(true, true, "w"), Ok(Layout::New26));
    assert_eq!(detect_layout(true, false, "w"), Ok(Layout::Legacy));
    assert_eq!(detect_layout(false, true, "w"), Err(Error::InvalidWorld("level.dat not found: w".to_string())));
}

#[test]
fn dimensions_mapped_to_legacy_folders() {
    let m = dimension_mapping("in/dimensions/minecraft/the_nether".to_string(), "minecraft", "the_nether");
    assert_eq!(m.output_rel, vec!["DIM-1".to_string()]);
    assert_eq!(m.kind, DimKind::Nether);
    let m = dimension_mapping("x".to_string(), "minecraft", "overworld");
    assert!(m.output_rel.is_empty());
    assert_eq!(m.kind, DimKind::Overworld);
    let m = dimension_mapping("x".to_string(), "minecraft", "the_end");
    assert_eq!(m.output_rel, vec!["DIM1".to_string()]);
    let m = dimension_mapping("x".to_string(), "mymod", "moon");
    assert_eq!(m.output_rel, vec!["dimensions".to_string(), "mymod".to_string(), "moon".to_string()]);
    assert_eq!(m.kind, DimKind::Custom);
}

#[test]
fn folder_entries_decided() {
    assert!(!copies_root_entry("level.dat"));
    assert!(!copies_root_entry("players"));
    assert!(copies_root_entry("icon.png"));
    assert_eq!(dim_entry_action("region", true), DimEntryAction::Chunks);
    assert_eq!(dim_entry_action("data", true), DimEntryAction::Data);
    assert_eq!(dim_entry_action("data", false), DimEntryAction::CopyFile);
    assert_eq!(dim_entry_action("other", true), DimEntryAction::CopyDir);
    assert_eq!(dim_data_action("world_border.dat", DimKind::Overworld, false, true), DimDataAction::Merged);
    assert_eq!(dim_data_action("world_border.dat", DimKind::Nether, false, true), DimDataAction::Dropped);
    assert_eq!(dim_data_action("ender_dragon_fight.dat", DimKind::End, false, true), DimDataAction::Merged);
    assert_eq!(dim_data_action("chunk_tickets.dat", DimKind::End, false, true), DimDataAction::Unsupported);
    assert_eq!(dim_data_action("raids.dat", DimKind::End, false, true), DimDataAction::Raids);
    assert_eq!(dim_data_action("custom.dat", DimKind::End, false, true), DimDataAction::RewriteDat);
    assert_eq!(raids_file_name(DimKind::End), "raids_end.dat");
    assert_eq!(raids_file_name(DimKind::Overworld), "raids.dat");
    assert_eq!(shared_data_action("weather.dat", false, true), SharedDataAction::Merged);
    assert_eq!(shared_data_action("stopwatches.dat", false, true), SharedDataAction::Unsupported);
    assert_eq!(shared_data_action("maps", true, false), SharedDataAction::Maps);
    assert_eq!(shared_data_action("raids.dat", false, true), SharedDataAction::RewriteDat);
    assert_eq!(map_file_target("last_id.dat", "last_id", true), Some("idcounts.dat".to_string()));
    assert_eq!(map_file_target("12.dat", "12", true), Some("map_12.dat".to_string()));
    assert_eq!(map_file_target("12a.dat", "12a", true), None);
    assert_eq!(map_file_target(".dat", "", true), None);
    assert_eq!(players_subdir("data", true), Some("playerdata"));
    assert_eq!(players_subdir("data", false), None);
    assert_eq!(players_subdir("stats", true), Some("stats"));
    assert_eq!(players_subdir("other", true), None);
}

#[test]
fn targets_resolved() {
    assert_eq!(resolve_target("1.20.1").unwrap().data_version, 3465);
    assert_eq!(
        resolve_target("1.13").err(),
        Some(Error::UnsupportedTarget("'1.13' — unknown version. Run `mcconvert versions` for the list.".to_string()))
    );
    assert_eq!(
        resolve_target("26.1").err(),
        Some(Error::UnsupportedTarget(
            "'26.1' — 26.x versions are inputs, not conversion targets (supported: 1.18.2–1.21.11).".to_string()
        ))
    );
}

#[test]
fn worlds_checked_against_target() {
    let target = find("1.21.11").unwrap();
    let info = |layout: Layout, dv: Option<i32>| WorldInfo { layout, data_version: dv, version_name: None, level_name: None };
    assert!(check_world(&info(Layout::New26, Some(4786)), target).is_ok());
    assert!(check_world(&info(Layout::New26, None), target).is_ok());
    assert_eq!(
        check_world(&info(Layout::Legacy, Some(4786)), target).err().map(|e| e.code()),
        Some("E30")
    );
    assert_eq!(
        check_world(&info(Layout::New26, Some(4671)), target).err(),
        Some(Error::InvalidWorld(
            "input world (DataVersion 4671) is not newer than the target (1.21.11, DataVersion 4671)".to_string()
        ))
    );
    assert_eq!(
        check_world(&info(Layout::New26, Some(4700)), target).err(),
        Some(Error::InvalidWorld("input world (DataVersion 4700) is older than 26.1 (DataVersion 4786)".to_string()))
    );
    assert!(check_output(false, "out").is_ok());
    assert_eq!(
        check_output(true, "out").err(),
        Some(Error::Output("output folder already exists and is not empty: out".to_string()))
    );
}

#[test]
fn world_info_read_from_level_dat() {
    let data = vec![
        ("DataVersion".to_string(), Nbt::Int(4786)),
        ("LevelName".to_string(), Nbt::String("My World".to_string())),
    ];
    let root = Nbt::Compound(vec![("Data".to_string(), Nbt::Compound(data))]);
    let info = inspect(Layout::New26, &root);
    assert_eq!(info.data_version, Some(4786));
    assert_eq!(info.version_name, Some("26.1"));
    assert_eq!(info.level_name, Some("My World".to_string()));
    let empty = inspect(Layout::Legacy, &Nbt::Int(0));
    assert_eq!(empty.data_version, None);
    assert_eq!(empty.version_name, None);
}

#[test]
fn reports_opened_and_closed() {
    let mut r = start_report(false);
    assert_eq!(r.warnings.len(), 1);
    r.warn("x".to_string());
    r.warn("x".to_string());
    finish_report(&mut r);
    assert_eq!(r.warnings.len(), 3);
    assert!(r.warnings[2].starts_with("Detailed NBT"));
    assert!(start_report(true).warnings.is_empty());
}

#[test]
fn batch_planned() {
    let plan = convert_batch(false, "in", vec![Some("WorldA".to_string()), None], "1.21.11").unwrap();
    assert_eq!(plan[0], ("WorldA".to_string(), "WorldA (1.21.11)".to_string()));
    assert_eq!(plan[1], ("world".to_string(), "world (1.21.11)".to_string()));
    match convert_batch(true, "in", Vec::new(), "1.21.11") {
        Err(Error::InvalidWorld(m)) => {
            assert_eq!(m, "level.dat found directly inside 'in'. Put each world in as its own folder (e.g. in\\my_world\\level.dat).")
        },
        _ => panic!("expected an invalid world error"),
    }
    let outcomes = vec![
        BatchOutcome { world_name: "a".to_string(), output: "a (x)".to_string(), result: Ok(Report::default()) },
        BatchOutcome {
            world_name: "b".to_string(),
            output: "b (x)".to_string(),
            result: Err(Error::Output("o".to_string())),
        },
    ];
    assert_eq!(count_succeeded(&outcomes), 1);
}

#[test]
fn zlib_stream_decoded() {
    let stream = [120u8, 156, 227, 98, 96, 96, 0, 0, 0, 44, 0, 11];
    assert_eq!(detect_compression(&stream), Compression::Zlib);
    assert_eq!(decompress_nbt_bytes(&stream, "chunk").unwrap(), vec![10, 0, 0, 0]);
}

#[test]
fn unsupported_data_files_reported() {
    let mut report = Report::default();
    mcconvert_core::layout::note_unsupported_file(&mut report, "chunk_tickets.dat");
    mcconvert_core::layout::note_unsupported_file(&mut report, "stopwatches.dat");
    assert_eq!(
        report.warnings,
        vec![
            "Older versions have no equivalent of chunk_tickets.dat; the file was dropped.".to_string(),
            "Older versions have no equivalent of stopwatches.dat; the file was dropped.".to_string(),
        ]
    );
}

#[test]
fn data_folder_entries_decided() {
    assert_eq!(data_entry_action("minecraft", true), DataEntryAction::Vanilla);
    assert_eq!(data_entry_action("minecraft", false), DataEntryAction::ForeignFile);
    assert_eq!(data_entry_action("mymod", true), DataEntryAction::ForeignDir);
    assert_eq!(data_entry_action("notes.txt", false), DataEntryAction::ForeignFile);
}

#[test]
fn case_conversion_leaves_no_underscore() {
    assert_eq!(snake_to_camel("ä_öl__x_"), "äÖlX");
    assert_eq!(snake_to_pascal("ß_straße"), "SSStraße");
    assert_eq!(snake_to_camel("plain"), "plain");
}
