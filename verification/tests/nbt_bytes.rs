use std::collections::HashMap;

use fastnbt::Value;
use mcconvert_core::chunk::{rewrite_chunk_bytes, ChunkStep};
use mcconvert_core::codec::{detect_compression, Compression};
use mcconvert_core::error::Error;
use mcconvert_core::nbt::{get, Nbt};
use mcconvert_core::nbt_bytes::{decode_nbt, encode_nbt, encode_nbt_gzip, parse_nbt_bytes};
use mcconvert_core::pipeline::discover_worlds;
use mcconvert_core::report::Report;

fn sample() -> Value {
    let mut map = HashMap::new();
    map.insert("DataVersion".to_string(), Value::Int(4786));
    map.insert("Health".to_string(), Value::Float(20.0));
    map.insert("Pos".to_string(), Value::List(vec![Value::Double(1.5), Value::Double(-2.0)]));
    map.insert("name".to_string(), Value::String("Steve".to_string()));
    Value::Compound(map)
}

#[test]
fn nbt_bytes_decoded_into_the_model() {
    let raw = encode_nbt(&sample(), "p.dat").unwrap();
    let Ok(Nbt::Compound(map)) = decode_nbt(&raw, "p.dat") else {
        panic!("not a compound")
    };
    assert_eq!(map.len(), 4);
    assert_eq!(get(&map, "DataVersion"), Some(&Nbt::Int(4786)));
    assert_eq!(get(&map, "Health"), Some(&Nbt::Float(20.0f32.to_bits())));
    assert_eq!(
        get(&map, "Pos"),
        Some(&Nbt::List(vec![Nbt::Double(1.5f64.to_bits()), Nbt::Double((-2.0f64).to_bits())]))
    );
    assert_eq!(get(&map, "name"), Some(&Nbt::String("Steve".to_string())));
}

#[test]
fn nbt_file_contents_parsed() {
    let packed = encode_nbt_gzip(&sample(), "level.dat").unwrap();
    assert_eq!(detect_compression(&packed), Compression::Gzip);
    let Ok(Nbt::Compound(map)) = parse_nbt_bytes(&packed, "level.dat") else {
        panic!("not parsed")
    };
    assert_eq!(get(&map, "DataVersion"), Some(&Nbt::Int(4786)));
    match parse_nbt_bytes(&[0x1f, 0x8b, 0, 0], "broken.dat") {
        Err(Error::Nbt { context, .. }) => assert_eq!(context, "broken.dat"),
        other => panic!("unexpected {other:?}"),
    }
    match parse_nbt_bytes(&[0xff, 0x00], "junk.dat") {
        Err(Error::Nbt { context, .. }) => assert_eq!(context, "junk.dat"),
        other => panic!("unexpected {other:?}"),
    }
}

#[test]
fn chunk_bytes_rewritten_or_skipped() {
    let mut map = HashMap::new();
    map.insert("DataVersion".to_string(), Value::Int(4786));
    map.insert("isLightOn".to_string(), Value::Byte(1));
    let raw = encode_nbt(&Value::Compound(map), "r.0.0.mca").unwrap();
    let mut report = Report::default();
    match rewrite_chunk_bytes(&raw, 1, 2, "r.0.0.mca", 4671, None, &mut report) {
        ChunkStep::Rewritten(Nbt::Compound(out)) => {
            assert_eq!(get(&out, "DataVersion"), Some(&Nbt::Int(4671)));
            assert_eq!(get(&out, "isLightOn"), None);
        }
        _ => panic!("chunk not rewritten"),
    }
    assert_eq!(report.chunks_rewritten, 1);

    let step = rewrite_chunk_bytes(&[0xff], 3, 17, "r.0.0.mca", 4671, None, &mut report);
    assert!(matches!(step, ChunkStep::Skipped));
    assert_eq!(report.chunks_skipped, 1);
    assert!(report.warnings[0].starts_with("r.0.0.mca (3, 17): skipped a chunk with invalid NBT ("));
}

#[test]
fn batch_worlds_found_in_order() {
    let entries = vec![
        ("b_world".to_string(), true, true),
        ("notes.txt".to_string(), false, false),
        ("A world".to_string(), true, true),
        ("empty".to_string(), true, false),
        ("a_world".to_string(), true, true),
    ];
    assert_eq!(
        discover_worlds(entries),
        vec!["A world".to_string(), "a_world".to_string(), "b_world".to_string()]
    );
}
