use mcconvert_core::chunk::{
    block_entity_id_for, ensure_block_entities, palette_bits, rewrite_chunk, skip_invalid_chunk, strip_light_data, try_rewrite_chunk,
};
use mcconvert_core::mapping::BlockTable;
use mcconvert_core::nbt::{contains_key, get, Nbt};
use mcconvert_core::report::Report;

fn ck_compound(entries: Vec<(&str, Nbt)>) -> Vec<(String, Nbt)> {
    entries.into_iter().map(|(k, v)| (k.to_string(), v)).collect()
}

fn ck_str(s: &str) -> Nbt {
    Nbt::String(s.to_string())
}

#[test]
fn bed_block_entity_synthesized() {
    let bed_props = ck_compound(vec![("part", ck_str("foot"))]);
    let bed = ck_compound(vec![("Name", ck_str("minecraft:yellow_bed")), ("Properties", Nbt::Compound(bed_props))]);
    let air = ck_compound(vec![("Name", ck_str("minecraft:air"))]);

    let mut data = vec![0i64; 256];
    data[0] = 1;
    let block_states = ck_compound(vec![
        ("palette", Nbt::List(vec![Nbt::Compound(air), Nbt::Compound(bed)])),
        ("data", Nbt::LongArray(data)),
    ]);
    let section = ck_compound(vec![("Y", Nbt::Byte(4)), ("block_states", Nbt::Compound(block_states))]);

    let mut chunk = ck_compound(vec![
        ("xPos", Nbt::Int(2)),
        ("zPos", Nbt::Int(-1)),
        ("sections", Nbt::List(vec![Nbt::Compound(section)])),
    ]);

    let added = ensure_block_entities(&mut chunk);
    assert_eq!(added, 1);
    let Some(Nbt::List(block_entities)) = get(&chunk, "block_entities") else {
        panic!()
    };
    let Nbt::Compound(be) = &block_entities[0] else {
        panic!()
    };
    assert_eq!(get(be, "id"), Some(&ck_str("minecraft:bed")));
    assert_eq!(get(be, "x"), Some(&Nbt::Int(32)));
    assert_eq!(get(be, "y"), Some(&Nbt::Int(64)));
    assert_eq!(get(be, "z"), Some(&Nbt::Int(-16)));

    let added_again = ensure_block_entities(&mut chunk);
    assert_eq!(added_again, 0);
}

#[test]
fn section_without_data_fills_every_cell() {
    let palette = vec![Nbt::Compound(ck_compound(vec![("Name", ck_str("minecraft:beacon"))]))];
    let block_states = ck_compound(vec![("palette", Nbt::List(palette))]);
    let section = ck_compound(vec![("Y", Nbt::Int(-1)), ("block_states", Nbt::Compound(block_states))]);
    let mut chunk = ck_compound(vec![
        ("xPos", Nbt::Int(0)),
        ("zPos", Nbt::Int(0)),
        ("block_entities", Nbt::Int(9)),
        ("sections", Nbt::List(vec![Nbt::Compound(section)])),
    ]);
    assert_eq!(ensure_block_entities(&mut chunk), 4096);
    let Some(Nbt::List(bes)) = get(&chunk, "block_entities") else {
        panic!()
    };
    assert_eq!(bes.len(), 4096);
    let Nbt::Compound(last) = &bes[4095] else {
        panic!()
    };
    assert_eq!(get(last, "x"), Some(&Nbt::Int(15)));
    assert_eq!(get(last, "y"), Some(&Nbt::Int(-1)));
    assert_eq!(get(last, "z"), Some(&Nbt::Int(15)));
    assert_eq!(get(last, "id"), Some(&ck_str("minecraft:beacon")));
}

#[test]
fn block_entity_ids() {
    assert_eq!(block_entity_id_for("minecraft:red_bed"), Some("minecraft:bed"));
    assert_eq!(block_entity_id_for("minecraft:soul_campfire"), Some("minecraft:campfire"));
    assert_eq!(block_entity_id_for("minecraft:stone"), None);
}

#[test]
fn palette_bit_widths() {
    assert_eq!(palette_bits(0), 4);
    assert_eq!(palette_bits(1), 4);
    assert_eq!(palette_bits(16), 4);
    assert_eq!(palette_bits(17), 5);
    assert_eq!(palette_bits(256), 8);
    assert_eq!(palette_bits(257), 9);
}

#[test]
fn light_data_removed() {
    let section = ck_compound(vec![
        ("Y", Nbt::Byte(0)),
        ("SkyLight", Nbt::ByteArray(vec![0; 2048])),
        ("BlockLight", Nbt::ByteArray(vec![0; 2048])),
    ]);
    let mut chunk = ck_compound(vec![("isLightOn", Nbt::Byte(1)), ("sections", Nbt::List(vec![Nbt::Compound(section)]))]);
    strip_light_data(&mut chunk);
    assert!(!contains_key(&chunk, "isLightOn"));
    let Some(Nbt::List(sections)) = get(&chunk, "sections") else {
        panic!()
    };
    let Nbt::Compound(section) = &sections[0] else {
        panic!()
    };
    assert!(!contains_key(section, "SkyLight"));
    assert!(!contains_key(section, "BlockLight"));
    assert!(contains_key(section, "Y"));
}

#[test]
fn chunk_rewritten_for_target() {
    let section = ck_compound(vec![("Y", Nbt::Byte(0)), ("SkyLight", Nbt::ByteArray(vec![0; 2048]))]);
    let chunk = ck_compound(vec![
        ("DataVersion", Nbt::Int(4786)),
        ("xPos", Nbt::Int(0)),
        ("zPos", Nbt::Int(0)),
        ("isLightOn", Nbt::Byte(1)),
        ("sections", Nbt::List(vec![Nbt::Compound(section)])),
    ]);
    let mut report = Report::default();
    let table = BlockTable::from_ids(vec!["minecraft:stone".to_string()]);
    let out = rewrite_chunk(Nbt::Compound(chunk), 4671, Some(&table), &mut report);
    let Nbt::Compound(map) = out else {
        panic!("not a compound")
    };
    assert_eq!(get(&map, "DataVersion"), Some(&Nbt::Int(4671)));
    assert!(!contains_key(&map, "isLightOn"));
    assert_eq!(report.chunks_rewritten, 1);
    let kept = rewrite_chunk(Nbt::Int(5), 4671, None, &mut report);
    assert_eq!(kept, Nbt::Int(5));
    assert_eq!(report.chunks_rewritten, 2);
}

#[test]
fn invalid_chunk_counted() {
    let mut report = Report::default();
    skip_invalid_chunk(&mut report, "r.0.0.mca", 3, 17, "bad tag");
    assert_eq!(report.chunks_skipped, 1);
    assert_eq!(report.warnings, vec!["r.0.0.mca (3, 17): skipped a chunk with invalid NBT (bad tag).".to_string()]);
}

#[test]
fn chunk_refused_where_rules_cannot_apply() {
    let mut report = Report::default();
    report.chunks_rewritten = u64::MAX;
    assert_eq!(try_rewrite_chunk(Nbt::Int(5), 4671, None, &mut report), None);

    let mut report = Report::default();
    let chunk = ck_compound(vec![("xPos", Nbt::Int(0)), ("zPos", Nbt::Int(0))]);
    let out = try_rewrite_chunk(Nbt::Compound(chunk), 4671, None, &mut report);
    let Some(Nbt::Compound(map)) = out else {
        panic!("chunk refused")
    };
    assert_eq!(get(&map, "DataVersion"), Some(&Nbt::Int(4671)));
    assert_eq!(report.chunks_rewritten, 1);
}
