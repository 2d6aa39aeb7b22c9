use mcconvert_core::error::Error;
use mcconvert_core::mapping::{filter_chunk_blocks, BlockTable};
use mcconvert_core::nbt::{contains_key, get, Nbt};

fn mp_table(ids: &[&str]) -> BlockTable {
    BlockTable::from_ids(ids.iter().map(|s| s.to_string()).collect())
}

fn mp_block(name: &str) -> Nbt {
    Nbt::Compound(vec![("Name".to_string(), Nbt::String(name.to_string()))])
}

#[test]
fn unsupported_block_to_air() {
    let palette = vec![mp_block("minecraft:stone"), mp_block("minecraft:future_block")];
    let block_states = vec![("palette".to_string(), Nbt::List(palette))];
    let section = vec![("block_states".to_string(), Nbt::Compound(block_states))];
    let mut chunk = vec![("sections".to_string(), Nbt::List(vec![Nbt::Compound(section)]))];

    let replaced = filter_chunk_blocks(&mut chunk, &mp_table(&["minecraft:stone"]));
    assert_eq!(replaced, 1);

    let Some(Nbt::List(sections)) = get(&chunk, "sections") else {
        panic!()
    };
    let Nbt::Compound(section) = &sections[0] else {
        panic!()
    };
    let Some(Nbt::Compound(bs)) = get(section, "block_states") else {
        panic!()
    };
    let Some(Nbt::List(palette)) = get(bs, "palette") else {
        panic!()
    };
    let Nbt::Compound(second) = &palette[1] else {
        panic!()
    };
    assert_eq!(get(second, "Name"), Some(&Nbt::String("minecraft:air".into())));
}

#[test]
fn replaced_block_loses_properties() {
    let block = Nbt::Compound(vec![
        ("Name".to_string(), Nbt::String("minecraft:copper_golem_statue".to_string())),
        ("Properties".to_string(), Nbt::Compound(Vec::new())),
    ]);
    let block_states = vec![("palette".to_string(), Nbt::List(vec![block]))];
    let section = vec![("block_states".to_string(), Nbt::Compound(block_states))];
    let mut chunk = vec![("sections".to_string(), Nbt::List(vec![Nbt::Compound(section), Nbt::Int(3)]))];
    let table = mp_table(&["minecraft:air"]);
    assert_eq!(filter_chunk_blocks(&mut chunk, &table), 1);
    assert_eq!(filter_chunk_blocks(&mut chunk, &table), 0);
    let Some(Nbt::List(sections)) = get(&chunk, "sections") else {
        panic!()
    };
    let Nbt::Compound(section) = &sections[0] else {
        panic!()
    };
    let Some(Nbt::Compound(bs)) = get(section, "block_states") else {
        panic!()
    };
    let Some(Nbt::List(palette)) = get(bs, "palette") else {
        panic!()
    };
    let Nbt::Compound(b) = &palette[0] else {
        panic!()
    };
    assert!(!contains_key(b, "Properties"));
    assert_eq!(sections[1], Nbt::Int(3));
}

#[test]
fn table_counts_each_id_once() {
    let table = mp_table(&["minecraft:stone", "minecraft:dirt", "minecraft:stone"]);
    assert_eq!(table.len(), 2);
    assert!(!table.is_empty());
    assert!(table.contains("minecraft:dirt"));
    assert!(!table.contains("minecraft:air"));
    assert!(mp_table(&[]).is_empty());
}

#[test]
fn table_loaded_from_json() {
    let table = BlockTable::load_json("[\"minecraft:stone\", \"minecraft:dirt\"]", "blocks.json").unwrap();
    assert_eq!(table.len(), 2);
    assert!(table.contains("minecraft:stone"));
    match BlockTable::load_json("{\"not\": \"a list\"}", "blocks.json") {
        Err(Error::Nbt { context, message }) => {
            assert_eq!(context, "blocks.json");
            assert!(!message.is_empty());
        },
        _ => panic!("expected an NBT error"),
    }
}
