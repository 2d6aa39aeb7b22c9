use mcconvert_core::downgrade::{downgrade_compound, try_downgrade_compound};
use mcconvert_core::nbt::{contains_key, get, Nbt};
use mcconvert_core::report::Report;

fn dg_str(s: &str) -> Nbt {
    Nbt::String(s.to_string())
}

fn dg_compound(entries: Vec<(&str, Nbt)>) -> Vec<(String, Nbt)> {
    entries.into_iter().map(|(k, v)| (k.to_string(), v)).collect()
}

fn dg_get<'a>(c: &'a Vec<(String, Nbt)>, k: &str) -> Option<&'a Nbt> {
    get(c, k)
}

#[test]
fn item_stack_to_legacy_format() {
    let enchant_levels = dg_compound(vec![("minecraft:sharpness", Nbt::Int(10))]);
    let enchantments = dg_compound(vec![("levels", Nbt::Compound(enchant_levels))]);

    let mut item = dg_compound(vec![
        ("id", dg_str("minecraft:diamond_sword")),
        ("count", Nbt::Int(1)),
        (
            "components",
            Nbt::Compound(dg_compound(vec![
                ("minecraft:damage", Nbt::Int(5)),
                ("minecraft:enchantments", Nbt::Compound(enchantments)),
                ("minecraft:custom_name", dg_str("Slayer")),
            ])),
        ),
    ]);

    let mut report = Report::default();
    downgrade_compound(&mut item, 2975, &mut report);

    assert_eq!(dg_get(&item, "Count"), Some(&Nbt::Byte(1)));
    assert!(!contains_key(&item, "count"));
    assert!(!contains_key(&item, "components"));
    let Some(Nbt::Compound(tag)) = dg_get(&item, "tag") else {
        panic!("missing tag")
    };
    assert_eq!(dg_get(tag, "Damage"), Some(&Nbt::Int(5)));
    let Some(Nbt::List(enchants)) = dg_get(tag, "Enchantments") else {
        panic!("missing Enchantments")
    };
    let Nbt::Compound(first) = &enchants[0] else {
        panic!()
    };
    assert_eq!(dg_get(first, "id"), Some(&dg_str("minecraft:sharpness")));
    assert_eq!(dg_get(first, "lvl"), Some(&Nbt::Short(10)));
    let Some(Nbt::Compound(display)) = dg_get(tag, "display") else {
        panic!()
    };
    assert_eq!(dg_get(display, "Name"), Some(&dg_str("{\"text\":\"Slayer\"}")));
    assert_eq!(report.items_converted, 1);
}

#[test]
fn nested_container_items() {
    let plain_item = dg_compound(vec![("id", dg_str("minecraft:stone"))]);
    let plain_entry = dg_compound(vec![("slot", Nbt::Int(0)), ("item", Nbt::Compound(plain_item))]);

    let direct_enchants = dg_compound(vec![("minecraft:feather_falling", Nbt::Int(3))]);
    let enchanted_item = dg_compound(vec![
        ("id", dg_str("minecraft:diamond_boots")),
        (
            "components",
            Nbt::Compound(dg_compound(vec![
                ("minecraft:enchantments", Nbt::Compound(direct_enchants)),
                ("minecraft:repair_cost", Nbt::Int(1)),
            ])),
        ),
    ]);
    let enchanted_entry = dg_compound(vec![("slot", Nbt::Int(3)), ("item", Nbt::Compound(enchanted_item))]);

    let mut shulker = dg_compound(vec![
        ("id", dg_str("minecraft:shulker_box")),
        ("count", Nbt::Int(1)),
        (
            "components",
            Nbt::Compound(dg_compound(vec![(
                "minecraft:container",
                Nbt::List(vec![Nbt::Compound(plain_entry), Nbt::Compound(enchanted_entry)]),
            )])),
        ),
    ]);

    let mut report = Report::default();
    downgrade_compound(&mut shulker, 3465, &mut report);

    let Some(Nbt::Compound(tag)) = dg_get(&shulker, "tag") else {
        panic!()
    };
    let Some(Nbt::Compound(bet)) = dg_get(tag, "BlockEntityTag") else {
        panic!()
    };
    let Some(Nbt::List(items)) = dg_get(bet, "Items") else {
        panic!()
    };

    let Nbt::Compound(plain) = &items[0] else {
        panic!()
    };
    assert_eq!(dg_get(plain, "Slot"), Some(&Nbt::Byte(0)));
    assert_eq!(dg_get(plain, "Count"), Some(&Nbt::Byte(1)));
    assert!(!contains_key(plain, "count"));

    let Nbt::Compound(enchanted) = &items[1] else {
        panic!()
    };
    assert_eq!(dg_get(enchanted, "Slot"), Some(&Nbt::Byte(3)));
    assert_eq!(dg_get(enchanted, "Count"), Some(&Nbt::Byte(1)));
    let Some(Nbt::Compound(inner_tag)) = dg_get(enchanted, "tag") else {
        panic!()
    };
    assert_eq!(dg_get(inner_tag, "RepairCost"), Some(&Nbt::Int(1)));
    let Some(Nbt::List(enchants)) = dg_get(inner_tag, "Enchantments") else {
        panic!()
    };
    let Nbt::Compound(enchant) = &enchants[0] else {
        panic!()
    };
    assert_eq!(dg_get(enchant, "id"), Some(&dg_str("minecraft:feather_falling")));
    assert_eq!(dg_get(enchant, "lvl"), Some(&Nbt::Short(3)));

    assert_eq!(report.items_converted, 3);
}

#[test]
fn equipment_split_for_pre_1_21_5() {
    let sword = dg_compound(vec![("id", dg_str("minecraft:iron_sword")), ("count", Nbt::Int(1))]);
    let helmet = dg_compound(vec![("id", dg_str("minecraft:iron_helmet")), ("count", Nbt::Int(1))]);
    let mut entity = dg_compound(vec![
        ("id", dg_str("minecraft:zombie")),
        (
            "equipment",
            Nbt::Compound(dg_compound(vec![
                ("mainhand", Nbt::Compound(sword)),
                ("head", Nbt::Compound(helmet)),
            ])),
        ),
        ("fall_distance", Nbt::Double(2.5f64.to_bits())),
    ]);

    let mut report = Report::default();
    downgrade_compound(&mut entity, 4189, &mut report);

    assert!(!contains_key(&entity, "equipment"));
    assert_eq!(dg_get(&entity, "FallDistance"), Some(&Nbt::Float(2.5f32.to_bits())));
    let Some(Nbt::List(hands)) = dg_get(&entity, "HandItems") else {
        panic!()
    };
    assert_eq!(hands.len(), 2);
    let Nbt::Compound(main) = &hands[0] else {
        panic!()
    };
    assert_eq!(dg_get(main, "id"), Some(&dg_str("minecraft:iron_sword")));
    assert_eq!(dg_get(main, "count"), Some(&Nbt::Int(1)));
    let Some(Nbt::List(armor)) = dg_get(&entity, "ArmorItems") else {
        panic!()
    };
    assert_eq!(armor.len(), 4);
    let Nbt::Compound(head) = &armor[3] else {
        panic!()
    };
    assert_eq!(dg_get(head, "id"), Some(&dg_str("minecraft:iron_helmet")));
    assert_eq!(report.items_converted, 0);
}

#[test]
fn attribute_rename_by_target() {
    let attribute = || {
        dg_compound(vec![("id", dg_str("minecraft:max_health")), ("base", Nbt::Double(20.0f64.to_bits()))])
    };
    let mut entity = dg_compound(vec![("attributes", Nbt::List(vec![Nbt::Compound(attribute())]))]);
    let mut report = Report::default();
    downgrade_compound(&mut entity, 3953, &mut report);
    let Some(Nbt::List(entries)) = dg_get(&entity, "attributes") else {
        panic!()
    };
    let Nbt::Compound(a) = &entries[0] else {
        panic!()
    };
    assert_eq!(dg_get(a, "id"), Some(&dg_str("minecraft:generic.max_health")));
    assert_eq!(dg_get(a, "base"), Some(&Nbt::Double(20.0f64.to_bits())));

    let mut entity = dg_compound(vec![("attributes", Nbt::List(vec![Nbt::Compound(attribute())]))]);
    downgrade_compound(&mut entity, 2975, &mut report);
    assert!(!contains_key(&entity, "attributes"));
    let Some(Nbt::List(entries)) = dg_get(&entity, "Attributes") else {
        panic!()
    };
    let Nbt::Compound(a) = &entries[0] else {
        panic!()
    };
    assert_eq!(dg_get(a, "Name"), Some(&dg_str("minecraft:generic.max_health")));
    assert_eq!(dg_get(a, "Base"), Some(&Nbt::Double(20.0f64.to_bits())));
}

#[test]
fn sign_to_legacy_format() {
    let front = dg_compound(vec![
        (
            "messages",
            Nbt::List(vec![dg_str("hello"), dg_str(""), dg_str(""), dg_str("")]),
        ),
        ("color", dg_str("black")),
        ("has_glowing_text", Nbt::Byte(0)),
    ]);
    let mut sign = dg_compound(vec![
        ("id", dg_str("minecraft:sign")),
        ("front_text", Nbt::Compound(front)),
        ("back_text", Nbt::Compound(Vec::new())),
        ("is_waxed", Nbt::Byte(0)),
    ]);

    let mut report = Report::default();
    downgrade_compound(&mut sign, 3337, &mut report);

    assert_eq!(dg_get(&sign, "Text1"), Some(&dg_str("{\"text\":\"hello\"}")));
    assert_eq!(dg_get(&sign, "Color"), Some(&dg_str("black")));
    assert!(!contains_key(&sign, "front_text"));
    assert!(!contains_key(&sign, "back_text"));
    assert!(!contains_key(&sign, "is_waxed"));
}

#[test]
fn mob_custom_name_json_normalized() {
    let mut entity = dg_compound(vec![("id", dg_str("minecraft:wolf")), ("CustomName", dg_str("Doggy"))]);
    let mut report = Report::default();
    downgrade_compound(&mut entity, 3465, &mut report);
    assert_eq!(dg_get(&entity, "CustomName"), Some(&dg_str("{\"text\":\"Doggy\"}")));

    let mut already_json = dg_compound(vec![("CustomName", dg_str("{\"text\":\"Bob\"}"))]);
    downgrade_compound(&mut already_json, 3465, &mut report);
    assert_eq!(dg_get(&already_json, "CustomName"), Some(&dg_str("{\"text\":\"Bob\"}")));

    let mut untouched = dg_compound(vec![("CustomName", dg_str("Doggy"))]);
    downgrade_compound(&mut untouched, 4671, &mut report);
    assert_eq!(dg_get(&untouched, "CustomName"), Some(&dg_str("Doggy")));
}

#[test]
fn sign_text_json_normalized_for_1_20_targets() {
    let front = dg_compound(vec![(
        "messages",
        Nbt::List(vec![dg_str("hello"), dg_str(""), dg_str(""), dg_str("")]),
    )]);
    let mut sign = dg_compound(vec![("id", dg_str("minecraft:sign")), ("front_text", Nbt::Compound(front))]);

    let mut report = Report::default();
    downgrade_compound(&mut sign, 3465, &mut report);

    let Some(Nbt::Compound(front)) = dg_get(&sign, "front_text") else {
        panic!("front_text must be kept for 1.20.1");
    };
    let Some(Nbt::List(messages)) = dg_get(front, "messages") else {
        panic!()
    };
    assert_eq!(messages[0], dg_str("{\"text\":\"hello\"}"));
    assert!(!contains_key(&sign, "Text1"));
}

#[test]
fn item_frame_block_pos_converted() {
    let mut frame = dg_compound(vec![
        ("id", dg_str("minecraft:item_frame")),
        ("Facing", Nbt::Byte(5)),
        ("block_pos", Nbt::IntArray(vec![-2217, 111, -1887])),
    ]);
    let mut report = Report::default();
    downgrade_compound(&mut frame, 4189, &mut report);

    assert!(!contains_key(&frame, "block_pos"));
    assert_eq!(dg_get(&frame, "TileX"), Some(&Nbt::Int(-2217)));
    assert_eq!(dg_get(&frame, "TileY"), Some(&Nbt::Int(111)));
    assert_eq!(dg_get(&frame, "TileZ"), Some(&Nbt::Int(-1887)));
    assert_eq!(dg_get(&frame, "Facing"), Some(&Nbt::Byte(5)));

    let mut untouched = dg_compound(vec![
        ("id", dg_str("minecraft:item_frame")),
        ("block_pos", Nbt::IntArray(vec![1, 2, 3])),
    ]);
    downgrade_compound(&mut untouched, 4671, &mut report);
    assert!(contains_key(&untouched, "block_pos"));
}

#[test]
fn painting_converted_for_1_18() {
    let mut painting = dg_compound(vec![
        ("id", dg_str("minecraft:painting")),
        ("facing", Nbt::Byte(3)),
        ("variant", dg_str("minecraft:wanderer")),
    ]);
    let mut report = Report::default();
    downgrade_compound(&mut painting, 2975, &mut report);

    assert_eq!(dg_get(&painting, "Facing"), Some(&Nbt::Byte(3)));
    assert_eq!(dg_get(&painting, "Motive"), Some(&dg_str("minecraft:wanderer")));
    assert!(!contains_key(&painting, "facing"));
    assert!(!contains_key(&painting, "variant"));
    assert_eq!(report.dropped_data, 0);

    let mut modern = dg_compound(vec![
        ("id", dg_str("minecraft:painting")),
        ("facing", Nbt::Byte(3)),
        ("variant", dg_str("minecraft:meditative")),
    ]);
    downgrade_compound(&mut modern, 2975, &mut report);
    assert_eq!(report.dropped_data, 1);

    let mut untouched = dg_compound(vec![
        ("id", dg_str("minecraft:painting")),
        ("facing", Nbt::Byte(3)),
        ("variant", dg_str("minecraft:wanderer")),
    ]);
    downgrade_compound(&mut untouched, 3337, &mut report);
    assert!(contains_key(&untouched, "variant"));
    assert!(contains_key(&untouched, "facing"));

    let mut mob = dg_compound(vec![("id", dg_str("minecraft:pig")), ("variant", dg_str("minecraft:temperate"))]);
    downgrade_compound(&mut mob, 2975, &mut report);
    assert!(contains_key(&mob, "variant"));
    assert!(!contains_key(&mob, "Motive"));
}

#[test]
fn furnace_fields_renamed() {
    let mut furnace = dg_compound(vec![
        ("id", dg_str("minecraft:furnace")),
        ("lit_time_remaining", Nbt::Short(1347)),
        ("cooking_time_spent", Nbt::Short(55)),
        ("cooking_total_time", Nbt::Short(200)),
        ("lit_total_time", Nbt::Short(1600)),
    ]);
    let mut report = Report::default();
    downgrade_compound(&mut furnace, 4082, &mut report);

    assert_eq!(dg_get(&furnace, "BurnTime"), Some(&Nbt::Short(1347)));
    assert_eq!(dg_get(&furnace, "CookTime"), Some(&Nbt::Short(55)));
    assert_eq!(dg_get(&furnace, "CookTimeTotal"), Some(&Nbt::Short(200)));
    assert!(!contains_key(&furnace, "lit_time_remaining"));
    assert!(!contains_key(&furnace, "lit_total_time"));

    let mut untouched = dg_compound(vec![("lit_time_remaining", Nbt::Short(5))]);
    downgrade_compound(&mut untouched, 4189, &mut report);
    assert!(contains_key(&untouched, "lit_time_remaining"));
}

#[test]
fn active_effects_converted_to_numeric_ids() {
    let effect = || {
        dg_compound(vec![
            ("id", dg_str("minecraft:speed")),
            ("amplifier", Nbt::Byte(1)),
            ("duration", Nbt::Int(1200)),
        ])
    };
    let unknown = dg_compound(vec![("id", dg_str("minecraft:weaving")), ("duration", Nbt::Int(100))]);
    let mut player = dg_compound(vec![(
        "active_effects",
        Nbt::List(vec![Nbt::Compound(effect()), Nbt::Compound(unknown)]),
    )]);
    let mut report = Report::default();
    downgrade_compound(&mut player, 2975, &mut report);

    assert!(!contains_key(&player, "active_effects"));
    let Some(Nbt::List(effects)) = dg_get(&player, "ActiveEffects") else {
        panic!("missing ActiveEffects");
    };
    assert_eq!(effects.len(), 1);
    let Nbt::Compound(speed) = &effects[0] else {
        panic!()
    };
    assert_eq!(dg_get(speed, "Id"), Some(&Nbt::Byte(1)));
    assert_eq!(dg_get(speed, "Amplifier"), Some(&Nbt::Byte(1)));
    assert_eq!(dg_get(speed, "Duration"), Some(&Nbt::Int(1200)));
    assert_eq!(dg_get(speed, "ShowParticles"), Some(&Nbt::Byte(1)));
    assert_eq!(report.dropped_data, 1);

    let mut kept = dg_compound(vec![("active_effects", Nbt::List(vec![Nbt::Compound(effect())]))]);
    downgrade_compound(&mut kept, 3839, &mut report);
    assert!(contains_key(&kept, "active_effects"));
    assert!(!contains_key(&kept, "ActiveEffects"));
}

#[test]
fn respawn_converted_to_legacy_spawn_fields() {
    let respawn = || {
        dg_compound(vec![
            ("pos", Nbt::IntArray(vec![6, 72, 4])),
            ("dimension", dg_str("minecraft:overworld")),
            ("yaw", Nbt::Float(3.66f32.to_bits())),
            ("pitch", Nbt::Float(60.64f32.to_bits())),
        ])
    };
    let mut player = dg_compound(vec![
        ("Health", Nbt::Float(20.0f32.to_bits())),
        ("respawn", Nbt::Compound(respawn())),
    ]);
    let mut report = Report::default();
    downgrade_compound(&mut player, 3465, &mut report);

    assert!(!contains_key(&player, "respawn"));
    assert_eq!(dg_get(&player, "SpawnX"), Some(&Nbt::Int(6)));
    assert_eq!(dg_get(&player, "SpawnY"), Some(&Nbt::Int(72)));
    assert_eq!(dg_get(&player, "SpawnZ"), Some(&Nbt::Int(4)));
    assert_eq!(dg_get(&player, "SpawnAngle"), Some(&Nbt::Float(3.66f32.to_bits())));
    assert_eq!(dg_get(&player, "SpawnDimension"), Some(&dg_str("minecraft:overworld")));
    assert_eq!(dg_get(&player, "SpawnForced"), Some(&Nbt::Byte(0)));

    let mut untouched = dg_compound(vec![("respawn", Nbt::Compound(respawn()))]);
    downgrade_compound(&mut untouched, 4671, &mut report);
    assert!(contains_key(&untouched, "respawn"));
    assert!(!contains_key(&untouched, "SpawnX"));
}

#[test]
fn component_text_json_normalized_for_1_20_5_to_1_21_4() {
    let mut item = dg_compound(vec![
        ("id", dg_str("minecraft:iron_pickaxe")),
        ("count", Nbt::Int(1)),
        (
            "components",
            Nbt::Compound(dg_compound(vec![
                ("minecraft:custom_name", dg_str("MightyPick")),
                ("minecraft:lore", Nbt::List(vec![dg_str("Lore line")])),
            ])),
        ),
    ]);
    let mut report = Report::default();
    downgrade_compound(&mut item, 4189, &mut report);

    assert_eq!(dg_get(&item, "count"), Some(&Nbt::Int(1)));
    let Some(Nbt::Compound(components)) = dg_get(&item, "components") else {
        panic!("components must be kept for 1.21.4");
    };
    assert_eq!(dg_get(components, "minecraft:custom_name"), Some(&dg_str("{\"text\":\"MightyPick\"}")));
    let Some(Nbt::List(lore)) = dg_get(components, "minecraft:lore") else {
        panic!()
    };
    assert_eq!(lore[0], dg_str("{\"text\":\"Lore line\"}"));

    let mut untouched = dg_compound(vec![
        ("id", dg_str("minecraft:iron_pickaxe")),
        ("count", Nbt::Int(1)),
        (
            "components",
            Nbt::Compound(dg_compound(vec![("minecraft:custom_name", dg_str("MightyPick"))])),
        ),
    ]);
    downgrade_compound(&mut untouched, 4671, &mut report);
    let Some(Nbt::Compound(components)) = dg_get(&untouched, "components") else {
        panic!()
    };
    assert_eq!(dg_get(components, "minecraft:custom_name"), Some(&dg_str("MightyPick")));
}

#[test]
fn map_item_keeps_map_id() {
    let mut map_item = dg_compound(vec![
        ("id", dg_str("minecraft:filled_map")),
        ("count", Nbt::Int(1)),
        ("components", Nbt::Compound(dg_compound(vec![("minecraft:map_id", Nbt::Int(7))]))),
    ]);
    let mut report = Report::default();
    downgrade_compound(&mut map_item, 2975, &mut report);

    let Some(Nbt::Compound(tag)) = dg_get(&map_item, "tag") else {
        panic!("missing tag")
    };
    assert_eq!(dg_get(tag, "map"), Some(&Nbt::Int(7)));
    assert_eq!(report.dropped_data, 0);
}

#[test]
fn lodestone_compass_keeps_target() {
    let target = dg_compound(vec![
        ("pos", Nbt::IntArray(vec![8, 69, 17])),
        ("dimension", dg_str("minecraft:overworld")),
    ]);
    let mut compass = dg_compound(vec![
        ("id", dg_str("minecraft:compass")),
        ("count", Nbt::Int(1)),
        (
            "components",
            Nbt::Compound(dg_compound(vec![(
                "minecraft:lodestone_tracker",
                Nbt::Compound(dg_compound(vec![("target", Nbt::Compound(target))])),
            )])),
        ),
    ]);

    let mut report = Report::default();
    downgrade_compound(&mut compass, 2975, &mut report);

    assert!(!contains_key(&compass, "components"));
    let Some(Nbt::Compound(tag)) = dg_get(&compass, "tag") else {
        panic!("missing tag")
    };
    assert_eq!(dg_get(tag, "LodestoneTracked"), Some(&Nbt::Byte(1)));
    assert_eq!(dg_get(tag, "LodestoneDimension"), Some(&dg_str("minecraft:overworld")));
    let Some(Nbt::Compound(pos)) = dg_get(tag, "LodestonePos") else {
        panic!("missing LodestonePos")
    };
    assert_eq!(dg_get(pos, "X"), Some(&Nbt::Int(8)));
    assert_eq!(dg_get(pos, "Y"), Some(&Nbt::Int(69)));
    assert_eq!(dg_get(pos, "Z"), Some(&Nbt::Int(17)));
    assert_eq!(report.dropped_data, 0);
}

#[test]
fn command_block_item_keeps_command() {
    let block_entity_data = dg_compound(vec![
        ("id", dg_str("minecraft:command_block")),
        ("Command", dg_str("/say hi")),
        ("auto", Nbt::Byte(0)),
    ]);
    let mut item = dg_compound(vec![
        ("id", dg_str("minecraft:command_block")),
        ("count", Nbt::Int(1)),
        (
            "components",
            Nbt::Compound(dg_compound(vec![(
                "minecraft:block_entity_data",
                Nbt::Compound(block_entity_data),
            )])),
        ),
    ]);

    let mut report = Report::default();
    downgrade_compound(&mut item, 3465, &mut report);

    assert!(!contains_key(&item, "components"));
    let Some(Nbt::Compound(tag)) = dg_get(&item, "tag") else {
        panic!("missing tag")
    };
    let Some(Nbt::Compound(bet)) = dg_get(tag, "BlockEntityTag") else {
        panic!("missing BlockEntityTag")
    };
    assert_eq!(dg_get(bet, "Command"), Some(&dg_str("/say hi")));
    assert_eq!(dg_get(bet, "auto"), Some(&Nbt::Byte(0)));
    assert_eq!(report.dropped_data, 0);
}

#[test]
fn no_changes_for_1_21_5_and_later() {
    let mut entity = dg_compound(vec![
        ("fall_distance", Nbt::Double(1.0f64.to_bits())),
        ("equipment", Nbt::Compound(Vec::new())),
    ]);
    let mut report = Report::default();
    downgrade_compound(&mut entity, 4671, &mut report);
    assert!(contains_key(&entity, "fall_distance"));
    assert!(contains_key(&entity, "equipment"));
}

#[test]
fn unknown_component_dropped_with_warning() {
    let mut item = dg_compound(vec![
        ("id", dg_str("minecraft:stick")),
        ("count", Nbt::Int(200)),
        ("components", Nbt::Compound(dg_compound(vec![("minecraft:glider", Nbt::Compound(Vec::new()))]))),
    ]);
    let mut report = Report::default();
    downgrade_compound(&mut item, 2975, &mut report);
    assert_eq!(dg_get(&item, "Count"), Some(&Nbt::Byte(127)));
    assert!(!contains_key(&item, "tag"));
    assert_eq!(report.dropped_data, 1);
    assert_eq!(report.items_converted, 1);
    assert_eq!(
        report.warnings,
        vec!["Item component 'minecraft:glider' has no equivalent before 1.20.5 and was dropped.".to_string()]
    );
}

#[test]
fn stray_components_dropped_for_old_targets() {
    let mut block_entity = dg_compound(vec![
        ("id", dg_str("minecraft:chest")),
        ("components", Nbt::Compound(Vec::new())),
    ]);
    let mut report = Report::default();
    downgrade_compound(&mut block_entity, 3465, &mut report);
    assert!(!contains_key(&block_entity, "components"));
    assert_eq!(report.dropped_data, 1);
    assert_eq!(
        report.warnings,
        vec!["Some component data was dropped (no equivalent before 1.20.5).".to_string()]
    );
}

#[test]
fn nested_entities_downgraded_in_lists() {
    let zombie = dg_compound(vec![
        ("id", dg_str("minecraft:zombie")),
        ("CustomName", dg_str("Z")),
    ]);
    let mut chunk = dg_compound(vec![("entities", Nbt::List(vec![Nbt::Compound(zombie)]))]);
    let mut report = Report::default();
    downgrade_compound(&mut chunk, 3465, &mut report);
    let Some(Nbt::List(entities)) = dg_get(&chunk, "entities") else {
        panic!()
    };
    let Nbt::Compound(z) = &entities[0] else {
        panic!()
    };
    assert_eq!(dg_get(z, "CustomName"), Some(&dg_str("{\"text\":\"Z\"}")));
}

#[test]
fn malformed_display_record_refused() {
    let custom = dg_compound(vec![("display", Nbt::Int(1))]);
    let mut item = dg_compound(vec![
        ("id", dg_str("minecraft:stick")),
        ("count", Nbt::Int(1)),
        (
            "components",
            Nbt::Compound(dg_compound(vec![
                ("minecraft:custom_data", Nbt::Compound(custom)),
                ("minecraft:custom_name", dg_str("Stick")),
            ])),
        ),
    ]);
    let mut report = Report::default();
    assert!(!try_downgrade_compound(&mut item, 2975, &mut report));

    let mut fine = dg_compound(vec![
        ("id", dg_str("minecraft:stick")),
        ("count", Nbt::Int(3)),
        ("components", Nbt::Compound(dg_compound(vec![("minecraft:custom_name", dg_str("Stick"))]))),
    ]);
    let mut report = Report::default();
    assert!(try_downgrade_compound(&mut fine, 2975, &mut report));
    assert_eq!(dg_get(&fine, "Count"), Some(&Nbt::Byte(3)));
    assert_eq!(report.items_converted, 1);
}

#[test]
fn counter_overflow_refused() {
    let mut item = dg_compound(vec![("id", dg_str("minecraft:stick")), ("count", Nbt::Int(1))]);
    let mut report = Report::default();
    report.items_converted = u64::MAX;
    assert!(!try_downgrade_compound(&mut item, 2975, &mut report));
}
