//! Rebuilding `level.dat` for an older version: the difficulty and spawn records
//! become the old fields, the data files that 26.x keeps next to the world are merged
//! back in (game rules, weather, world generation, boss events, scheduled events,
//! wandering trader, world clock, dragon fight, world border), the singleplayer's
//! player file is embedded, and the version tags are set to the target.
use vstd::prelude::*;
use crate::data_files::{camel_from, pascal_rename, pascal_rename_fold, snake_to_camel};
use crate::downgrade::entity::{insert_xyz, put_xyz};
use crate::downgrade::{downgrade_spec, try_downgrade_compound};
use crate::error::Error;
use crate::ieee::{int_to_double, int_to_double_bits};
use crate::keymap::{key_lookup, lookup, table_view};
use crate::nbt::{cget, cins, contains_key, crem, cv, empty_entries, get, insert, lemma_cget_cins_other, lemma_cget_cins_same, lemma_cv, nv, remove, unique_keys, Entries, Nbt, NbtV};
use crate::report::{fits, same_other_counters, tally, tw, Report, Tally};
use crate::text::{
    append, hex_char, hex_digits, i64_to_decimal, int_decimal, str_eq, string_of,
    strip_prefix_or_self,
};
use crate::version::VersionInfo;

verus! {

// ---------------------------------------------------------------- difficulty

/// The difficulty byte of a difficulty name.
pub open spec fn difficulty_level(s: Seq<char>) -> Option<i8> {
    if s == "peaceful"@ {
        Some(0)
    } else if s == "easy"@ {
        Some(1)
    } else if s == "normal"@ {
        Some(2)
    } else if s == "hard"@ {
        Some(3)
    } else {
        None
    }
}

/// 1 when the value is the byte 1, else 0.
pub open spec fn byte_flag(v: Option<NbtV>) -> i8 {
    if v == Some(NbtV::Byte(1)) {
        1
    } else {
        0
    }
}

/// The warning for a difficulty name that is not known.
pub open spec fn unknown_difficulty_warning(s: Seq<char>) -> Seq<char> {
    "Unknown difficulty '"@ + s + "' — falling back to normal."@
}

/// The `difficulty_settings` record replaced by `Difficulty`, `DifficultyLocked` and
/// `hardcore`; an unknown or missing difficulty is normal (2), with a warning; a
/// record that is no compound gives normal difficulty alone, with a warning.
pub open spec fn difficulty_spec(c: Entries, t: Tally) -> (Entries, Tally) {
    match cget(c, "difficulty_settings"@) {
        None => (c, t),
        Some(NbtV::Compound(ds)) => {
            let c1 = crem(c, "difficulty_settings"@);
            let (level, t1) = match cget(ds, "difficulty"@) {
                Some(NbtV::String(s)) => match difficulty_level(s) {
                    Some(l) => (l, t),
                    None => (2i8, tw(t, unknown_difficulty_warning(s))),
                },
                _ => (2i8, tw(t, "difficulty string not found — falling back to normal."@)),
            };
            (
                cins(
                    cins(
                        cins(c1, "Difficulty"@, NbtV::Byte(level)),
                        "DifficultyLocked"@,
                        NbtV::Byte(byte_flag(cget(ds, "locked"@))),
                    ),
                    "hardcore"@,
                    NbtV::Byte(byte_flag(cget(ds, "hardcore"@))),
                ),
                t1,
            )
        },
        Some(_) => (
            cins(crem(c, "difficulty_settings"@), "Difficulty"@, NbtV::Byte(2)),
            tw(t, "difficulty_settings has an unexpected format; using default difficulty (normal)."@),
        ),
    }
}

/// The difficulty names, in the order of their bytes.
pub open spec fn difficulty_names() -> Seq<Seq<char>> {
    seq!["peaceful"@, "easy"@, "normal"@, "hard"@]
}

/// A known difficulty name becomes the byte that is its index among peaceful, easy,
/// normal and hard (0 to 3).
pub proof fn lemma_difficulty_is_name_index(c: Entries, ds: Entries, i: int, t: Tally)
    requires
        0 <= i < 4,
        cget(c, "difficulty_settings"@) == Some(NbtV::Compound(ds)),
        cget(ds, "difficulty"@) == Some(NbtV::String(difficulty_names()[i])),
    ensures
        cget(difficulty_spec(c, t).0, "Difficulty"@) == Some(NbtV::Byte(i as i8)),
        difficulty_spec(c, t).1 == t,
{
    reveal_strlit("peaceful");
    reveal_strlit("easy");
    reveal_strlit("normal");
    reveal_strlit("hard");
    reveal_strlit("Difficulty");
    reveal_strlit("DifficultyLocked");
    reveal_strlit("hardcore");
    assert("peaceful"@.len() == 8 && "easy"@.len() == 4 && "normal"@.len() == 6 && "hard"@.len() == 4);
    assert("easy"@[0] == 'e' && "hard"@[0] == 'h');
    assert("Difficulty"@.len() == 10 && "DifficultyLocked"@.len() == 16 && "hardcore"@[0] == 'h'
        && "Difficulty"@[0] == 'D');
    let c1 = crem(c, "difficulty_settings"@);
    let b = NbtV::Byte(i as i8);
    let d1 = cins(c1, "Difficulty"@, b);
    let l = NbtV::Byte(byte_flag(cget(ds, "locked"@)));
    let d2 = cins(d1, "DifficultyLocked"@, l);
    let h = NbtV::Byte(byte_flag(cget(ds, "hardcore"@)));
    lemma_cget_cins_same(c1, "Difficulty"@, b);
    lemma_cget_cins_other(d1, "DifficultyLocked"@, l, "Difficulty"@);
    lemma_cget_cins_other(d2, "hardcore"@, h, "Difficulty"@);
    assert(difficulty_level(difficulty_names()[i]) == Some(i as i8));
}

/// A difficulty name that is none of peaceful, easy, normal and hard falls back to
/// normal (2), with a warning that names it.
pub proof fn lemma_unknown_difficulty_is_normal(c: Entries, ds: Entries, s: Seq<char>, t: Tally)
    requires
        !difficulty_names().contains(s),
        cget(c, "difficulty_settings"@) == Some(NbtV::Compound(ds)),
        cget(ds, "difficulty"@) == Some(NbtV::String(s)),
    ensures
        cget(difficulty_spec(c, t).0, "Difficulty"@) == Some(NbtV::Byte(2)),
        difficulty_spec(c, t).1 == tw(t, unknown_difficulty_warning(s)),
{
    reveal_strlit("Difficulty");
    reveal_strlit("DifficultyLocked");
    reveal_strlit("hardcore");
    assert("Difficulty"@.len() == 10 && "DifficultyLocked"@.len() == 16 && "hardcore"@[0] == 'h'
        && "Difficulty"@[0] == 'D');
    assert(difficulty_names()[0] == "peaceful"@ && difficulty_names()[1] == "easy"@);
    assert(difficulty_names()[2] == "normal"@ && difficulty_names()[3] == "hard"@);
    assert(s != "peaceful"@ && s != "easy"@ && s != "normal"@ && s != "hard"@) by {
        if s == "peaceful"@ {
            assert(difficulty_names()[0] == s);
        }
        if s == "easy"@ {
            assert(difficulty_names()[1] == s);
        }
        if s == "normal"@ {
            assert(difficulty_names()[2] == s);
        }
        if s == "hard"@ {
            assert(difficulty_names()[3] == s);
        }
    }
    let c1 = crem(c, "difficulty_settings"@);
    let b = NbtV::Byte(2);
    let d1 = cins(c1, "Difficulty"@, b);
    let l = NbtV::Byte(byte_flag(cget(ds, "locked"@)));
    let d2 = cins(d1, "DifficultyLocked"@, l);
    let h = NbtV::Byte(byte_flag(cget(ds, "hardcore"@)));
    lemma_cget_cins_same(c1, "Difficulty"@, b);
    lemma_cget_cins_other(d1, "DifficultyLocked"@, l, "Difficulty"@);
    lemma_cget_cins_other(d2, "hardcore"@, h, "Difficulty"@);
}

fn difficulty_level_exec(s: &str) -> (r: Option<i8>)
    ensures
        r == difficulty_level(s@),
{
    if str_eq(s, "peaceful") {
        Some(0)
    } else if str_eq(s, "easy") {
        Some(1)
    } else if str_eq(s, "normal") {
        Some(2)
    } else if str_eq(s, "hard") {
        Some(3)
    } else {
        None
    }
}

fn byte_flag_exec(v: Option<&Nbt>) -> (r: i8)
    ensures
        r == byte_flag(
            match v {
                Some(x) => Some(nv(*x)),
                None => None,
            },
        ),
{
    match v {
        Some(Nbt::Byte(b)) => if *b == 1 {
            1
        } else {
            0
        },
        _ => 0,
    }
}

/// Converts the difficulty settings (see [`difficulty_spec`]).
pub fn apply_difficulty(data: &mut Vec<(String, Nbt)>, report: &mut Report)
    ensures
        (cv(final(data)@), tally(*final(report))) == difficulty_spec(cv(old(data)@), tally(*old(report))),
        same_other_counters(*old(report), *final(report)),
{
    match remove(data, "difficulty_settings") {
        None => {},
        Some(Nbt::Compound(ds)) => {
            let level: i8 = match get(&ds, "difficulty") {
                Some(Nbt::String(s)) => match difficulty_level_exec(s.as_str()) {
                    Some(l) => l,
                    None => {
                        let mut w = string_of("Unknown difficulty '");
                        append(&mut w, s.as_str());
                        append(&mut w, "' — falling back to normal.");
                        report.warn(w);
                        2
                    },
                },
                _ => {
                    report.warn(string_of("difficulty string not found — falling back to normal."));
                    2
                },
            };
            let locked = byte_flag_exec(get(&ds, "locked"));
            let hardcore = byte_flag_exec(get(&ds, "hardcore"));
            insert(data, "Difficulty", Nbt::Byte(level));
            insert(data, "DifficultyLocked", Nbt::Byte(locked));
            insert(data, "hardcore", Nbt::Byte(hardcore));
        },
        Some(_) => {
            report.warn(
                string_of(
                    "difficulty_settings has an unexpected format; using default difficulty (normal).",
                ),
            );
            insert(data, "Difficulty", Nbt::Byte(2));
        },
    }
}

// ---------------------------------------------------------------- spawn

/// The warning for a world spawn outside the overworld.
pub open spec fn spawn_dimension_warning(d: Seq<char>) -> Seq<char> {
    "World spawn is in dimension '"@ + d
        + "', but older versions only support overworld spawns."@
}

/// The `spawn` record replaced by `SpawnX/Y/Z` (from a three-element `pos`) and
/// `SpawnAngle` (from a float `yaw`); a spawn outside the overworld is reported; a
/// record that is no compound is dropped with a warning.
pub open spec fn spawn_spec(c: Entries, t: Tally) -> (Entries, Tally) {
    match cget(c, "spawn"@) {
        None => (c, t),
        Some(NbtV::Compound(sp)) => {
            let c1 = crem(c, "spawn"@);
            let c2 = match cget(sp, "pos"@) {
                Some(NbtV::IntArray(p)) => put_xyz(c1, p, "SpawnX"@, "SpawnY"@, "SpawnZ"@),
                _ => c1,
            };
            let c3 = match cget(sp, "yaw"@) {
                Some(NbtV::Float(y)) => cins(c2, "SpawnAngle"@, NbtV::Float(y)),
                _ => c2,
            };
            let t1 = match cget(sp, "dimension"@) {
                Some(NbtV::String(d)) => if d != "minecraft:overworld"@ {
                    tw(t, spawn_dimension_warning(d))
                } else {
                    t
                },
                _ => t,
            };
            (c3, t1)
        },
        Some(_) => (
            crem(c, "spawn"@),
            tw(t, "spawn has an unexpected format; skipping spawn conversion."@),
        ),
    }
}

/// Converts the world spawn (see [`spawn_spec`]).
pub fn apply_spawn(data: &mut Vec<(String, Nbt)>, report: &mut Report)
    ensures
        (cv(final(data)@), tally(*final(report))) == spawn_spec(cv(old(data)@), tally(*old(report))),
        same_other_counters(*old(report), *final(report)),
{
    match remove(data, "spawn") {
        None => {},
        Some(Nbt::Compound(sp)) => {
            match get(&sp, "pos") {
                Some(Nbt::IntArray(p)) => insert_xyz(data, p, "SpawnX", "SpawnY", "SpawnZ"),
                _ => {},
            }
            match get(&sp, "yaw") {
                Some(Nbt::Float(y)) => insert(data, "SpawnAngle", Nbt::Float(*y)),
                _ => {},
            }
            match get(&sp, "dimension") {
                Some(Nbt::String(d)) => {
                    if !str_eq(d.as_str(), "minecraft:overworld") {
                        let mut w = string_of("World spawn is in dimension '");
                        append(&mut w, d.as_str());
                        append(&mut w, "', but older versions only support overworld spawns.");
                        report.warn(w);
                    }
                },
                _ => {},
            }
        },
        Some(_) => {
            report.warn(string_of("spawn has an unexpected format; skipping spawn conversion."));
        },
    }
}

// ---------------------------------------------------------------- uuid

/// The 128-bit number whose 32-bit words, most significant first, are the given
/// parts (only the last four parts remain).
pub open spec fn uuid_value(parts: Seq<i32>) -> nat
    decreases parts.len(),
{
    if parts.len() == 0 {
        0
    } else {
        ((uuid_value(parts.drop_last()) * 0x1_0000_0000 + (parts.last() as u32) as nat)
            % (u128::MAX as nat + 1)) as nat
    }
}

/// The UUID text of 32 hexadecimal digits: groups of 8, 4, 4, 4 and 12 joined by `-`.
pub open spec fn dashed(h: Seq<char>) -> Seq<char> {
    h.subrange(0, 8) + seq!['-'] + h.subrange(8, 12) + seq!['-'] + h.subrange(12, 16) + seq!['-']
        + h.subrange(16, 20) + seq!['-'] + h.subrange(20, 32)
}

/// The UUID text of the parts (see [`uuid_value`], [`dashed`]).
pub open spec fn uuid_spec(parts: Seq<i32>) -> Seq<char> {
    dashed(hex_digits(uuid_value(parts), 32))
}

proof fn lemma_shift_in(v: u128, p: u128)
    by (bit_vector)
    requires
        p < 0x1_0000_0000u128,
    ensures
        (v << 32u128) | p == (v * 0x1_0000_0000u128 + p) % (u128::MAX as int + 1),
{
}

fn hex_digit_u128(d: u128) -> (c: char)
    requires
        d < 16,
    ensures
        c == hex_char(d as int),
{
    if d < 10 {
        let b: u8 = 48u8 + (d as u8);
        b as char
    } else {
        let b: u8 = 87u8 + (d as u8);
        b as char
    }
}

fn push_hex_u128(s: &mut String, v: u128, n: u64)
    requires
        n <= 32,
    ensures
        final(s)@ == old(s)@ + hex_digits(v as nat, n as nat),
    decreases n,
{
    if n == 0 {
        assert(old(s)@ + hex_digits(v as nat, 0) =~= old(s)@);
    } else {
        push_hex_u128(s, v / 16, n - 1);
        let ghost mid = s@;
        crate::text::push_char(s, hex_digit_u128(v % 16));
        assert(hex_digits(v as nat, n as nat) == hex_digits((v / 16) as nat, (n - 1) as nat).push(
            hex_char((v % 16) as int),
        ));
        assert(old(s)@ + hex_digits(v as nat, n as nat) =~= mid.push(hex_char((v % 16) as int)));
    }
}

/// Writes the 32-bit parts of a UUID as its dashed hexadecimal text.
pub fn format_uuid(ints: &[i32]) -> (r: String)
    ensures
        r@ == uuid_spec(ints@),
{
    let mut value: u128 = 0;
    let mut i: usize = 0;
    let n = ints.len();
    while i < n
        invariant
            n == ints@.len(),
            i <= n,
            value as nat == uuid_value(ints@.take(i as int)),
        decreases n - i,
    {
        let part: u32 = ints[i] as u32;
        proof {
            lemma_shift_in(value, part as u128);
            assert(ints@.take(i + 1).drop_last() =~= ints@.take(i as int));
            assert(ints@.take(i + 1).last() == ints@[i as int]);
        }
        value = (value << 32) | (part as u128);
        i = i + 1;
    }
    assert(ints@.take(n as int) =~= ints@);
    let mut hex = String::new();
    push_hex_u128(&mut hex, value, 32);
    assert(hex@ =~= hex_digits(value as nat, 32));
    proof {
        lemma_hex_len(value as nat, 32);
    }
    let h = hex.as_str();
    let mut r = string_of(h.substring_char(0, 8));
    append(&mut r, "-");
    append(&mut r, h.substring_char(8, 12));
    append(&mut r, "-");
    append(&mut r, h.substring_char(12, 16));
    append(&mut r, "-");
    append(&mut r, h.substring_char(16, 20));
    append(&mut r, "-");
    append(&mut r, h.substring_char(20, 32));
    proof {
        reveal_strlit("-");
    }
    assert(r@ =~= dashed(hex@));
    r
}

proof fn lemma_hex_len(v: nat, n: nat)
    ensures
        hex_digits(v, n).len() == n,
    decreases n,
{
    if n > 0 {
        lemma_hex_len(v / 16, (n - 1) as nat);
    }
}

// ---------------------------------------------------------------- version tags

/// `DataVersion` and the `Version` record set to the target release.
pub open spec fn version_tags_spec(c: Entries, name: Seq<char>, dv: i32) -> Entries {
    cins(
        cins(c, "DataVersion"@, NbtV::Int(dv)),
        "Version"@,
        NbtV::Compound(
            seq![
                ("Id"@, NbtV::Int(dv)),
                ("Name"@, NbtV::String(name)),
                ("Series"@, NbtV::String("main"@)),
                ("Snapshot"@, NbtV::Byte(0)),
            ],
        ),
    )
}

/// Sets the version tags of the level data to the target (see [`version_tags_spec`]).
pub fn apply_version_tags(data: &mut Vec<(String, Nbt)>, target: VersionInfo)
    ensures
        cv(final(data)@) == version_tags_spec(cv(old(data)@), target.name@, target.data_version),
{
    insert(data, "DataVersion", Nbt::Int(target.data_version));
    let version = vec![
        (string_of("Id"), Nbt::Int(target.data_version)),
        (string_of("Name"), Nbt::String(string_of(target.name))),
        (string_of("Series"), Nbt::String(string_of("main"))),
        (string_of("Snapshot"), Nbt::Byte(0)),
    ];
    proof {
        lemma_cv(version@);
        assert(cv(version@) =~= seq![
            ("Id"@, NbtV::Int(target.data_version)),
            ("Name"@, NbtV::String(target.name@)),
            ("Series"@, NbtV::String("main"@)),
            ("Snapshot"@, NbtV::Byte(0)),
        ]);
    }
    insert(data, "Version", Nbt::Compound(version));
}

// ---------------------------------------------------------------- renaming tables

/// The wandering trader file's renamed keys.
pub open spec fn trader_table() -> Seq<(Seq<char>, Seq<char>)> {
    seq![
        ("id"@, "WanderingTraderId"@),
        ("spawn_chance"@, "WanderingTraderSpawnChance"@),
        ("spawn_delay"@, "WanderingTraderSpawnDelay"@),
    ]
}

fn trader_key_map() -> (r: Vec<(&'static str, &'static str)>)
    ensures
        table_view(r@) == trader_table(),
{
    let r = vec![
        ("id", "WanderingTraderId"),
        ("spawn_chance", "WanderingTraderSpawnChance"),
        ("spawn_delay", "WanderingTraderSpawnDelay"),
    ];
    assert(table_view(r@) =~= trader_table());
    r
}

/// The weather file's renamed keys.
pub open spec fn weather_table() -> Seq<(Seq<char>, Seq<char>)> {
    seq![
        ("raining"@, "raining"@),
        ("thundering"@, "thundering"@),
        ("rain_time"@, "rainTime"@),
        ("thunder_time"@, "thunderTime"@),
        ("clear_weather_time"@, "clearWeatherTime"@),
    ]
}

fn weather_key_map() -> (r: Vec<(&'static str, &'static str)>)
    ensures
        table_view(r@) == weather_table(),
{
    let r = vec![
        ("raining", "raining"),
        ("thundering", "thundering"),
        ("rain_time", "rainTime"),
        ("thunder_time", "thunderTime"),
        ("clear_weather_time", "clearWeatherTime"),
    ];
    assert(table_view(r@) =~= weather_table());
    r
}

/// The dragon fight file's renamed keys.
pub open spec fn dragon_fight_table() -> Seq<(Seq<char>, Seq<char>)> {
    seq![
        ("dragon_killed"@, "DragonKilled"@),
        ("previously_killed"@, "PreviouslyKilled"@),
        ("needs_state_scanning"@, "NeedsStateScanning"@),
        ("gateways"@, "Gateways"@),
        ("respawn_time"@, "RespawnTime"@),
        ("exit_portal_location"@, "ExitPortalLocation"@),
        ("dragon"@, "Dragon"@),
    ]
}

fn dragon_fight_key_map() -> (r: Vec<(&'static str, &'static str)>)
    ensures
        table_view(r@) == dragon_fight_table(),
{
    let r = vec![
        ("dragon_killed", "DragonKilled"),
        ("previously_killed", "PreviouslyKilled"),
        ("needs_state_scanning", "NeedsStateScanning"),
        ("gateways", "Gateways"),
        ("respawn_time", "RespawnTime"),
        ("exit_portal_location", "ExitPortalLocation"),
        ("dragon", "Dragon"),
    ];
    assert(table_view(r@) =~= dragon_fight_table());
    r
}

/// The world border file's renamed keys.
pub open spec fn world_border_table() -> Seq<(Seq<char>, Seq<char>)> {
    seq![
        ("center_x"@, "BorderCenterX"@),
        ("center_z"@, "BorderCenterZ"@),
        ("damage_per_block"@, "BorderDamagePerBlock"@),
        ("lerp_target"@, "BorderSizeLerpTarget"@),
        ("lerp_time"@, "BorderSizeLerpTime"@),
        ("safe_zone"@, "BorderSafeZone"@),
        ("size"@, "BorderSize"@),
        ("warning_blocks"@, "BorderWarningBlocks"@),
        ("warning_time"@, "BorderWarningTime"@),
    ]
}

fn world_border_key_map() -> (r: Vec<(&'static str, &'static str)>)
    ensures
        table_view(r@) == world_border_table(),
{
    let r = vec![
        ("center_x", "BorderCenterX"),
        ("center_z", "BorderCenterZ"),
        ("damage_per_block", "BorderDamagePerBlock"),
        ("lerp_target", "BorderSizeLerpTarget"),
        ("lerp_time", "BorderSizeLerpTime"),
        ("safe_zone", "BorderSafeZone"),
        ("size", "BorderSize"),
        ("warning_blocks", "BorderWarningBlocks"),
        ("warning_time", "BorderWarningTime"),
    ];
    assert(table_view(r@) =~= world_border_table());
    r
}

/// Game rules whose legacy names differ from their camelCase form.
pub open spec fn game_rule_names() -> Seq<(Seq<char>, Seq<char>)> {
    seq![
        ("advance_time"@, "doDaylightCycle"@),
        ("advance_weather"@, "doWeatherCycle"@),
        ("block_drops"@, "doTileDrops"@),
        ("entity_drops"@, "doEntityDrops"@),
        ("mob_drops"@, "doMobLoot"@),
        ("spawn_mobs"@, "doMobSpawning"@),
        ("spawn_phantoms"@, "doInsomnia"@),
        ("spawn_patrols"@, "doPatrolSpawning"@),
        ("spawn_wandering_traders"@, "doTraderSpawning"@),
        ("spawn_wardens"@, "doWardenSpawning"@),
        ("spread_vines"@, "doVinesSpread"@),
        ("fire_tick"@, "doFireTick"@),
        ("immediate_respawn"@, "doImmediateRespawn"@),
        ("limited_crafting"@, "doLimitedCrafting"@),
        ("natural_health_regeneration"@, "naturalRegeneration"@),
        ("respawn_radius"@, "spawnRadius"@),
        ("show_advancement_messages"@, "announceAdvancements"@),
        ("max_block_modifications"@, "commandModificationBlockLimit"@),
        ("max_command_forks"@, "maxCommandForkCount"@),
        ("max_command_sequence_length"@, "maxCommandChainLength"@),
        ("max_snow_accumulation_height"@, "snowAccumulationHeight"@),
        ("command_blocks_work"@, "commandBlocksEnabled"@),
    ]
}

fn game_rule_name_map() -> (r: Vec<(&'static str, &'static str)>)
    ensures
        table_view(r@) == game_rule_names(),
{
    let r = vec![
        ("advance_time", "doDaylightCycle"),
        ("advance_weather", "doWeatherCycle"),
        ("block_drops", "doTileDrops"),
        ("entity_drops", "doEntityDrops"),
        ("mob_drops", "doMobLoot"),
        ("spawn_mobs", "doMobSpawning"),
        ("spawn_phantoms", "doInsomnia"),
        ("spawn_patrols", "doPatrolSpawning"),
        ("spawn_wandering_traders", "doTraderSpawning"),
        ("spawn_wardens", "doWardenSpawning"),
        ("spread_vines", "doVinesSpread"),
        ("fire_tick", "doFireTick"),
        ("immediate_respawn", "doImmediateRespawn"),
        ("limited_crafting", "doLimitedCrafting"),
        ("natural_health_regeneration", "naturalRegeneration"),
        ("respawn_radius", "spawnRadius"),
        ("show_advancement_messages", "announceAdvancements"),
        ("max_block_modifications", "commandModificationBlockLimit"),
        ("max_command_forks", "maxCommandForkCount"),
        ("max_command_sequence_length", "maxCommandChainLength"),
        ("max_snow_accumulation_height", "snowAccumulationHeight"),
        ("command_blocks_work", "commandBlocksEnabled"),
    ];
    assert(table_view(r@) =~= game_rule_names());
    r
}

/// Boolean game rules whose legacy forms mean the opposite.
pub open spec fn game_rule_inverted() -> Seq<(Seq<char>, Seq<char>)> {
    seq![
        ("elytra_movement_check"@, "disableElytraMovementCheck"@),
        ("player_movement_check"@, "disablePlayerMovementCheck"@),
        ("raids"@, "disableRaids"@),
    ]
}

fn game_rule_inverted_map() -> (r: Vec<(&'static str, &'static str)>)
    ensures
        table_view(r@) == game_rule_inverted(),
{
    let r = vec![
        ("elytra_movement_check", "disableElytraMovementCheck"),
        ("player_movement_check", "disablePlayerMovementCheck"),
        ("raids", "disableRaids"),
    ];
    assert(table_view(r@) =~= game_rule_inverted());
    r
}

// ---------------------------------------------------------------- game rules

/// A game rule's key without the `minecraft:` namespace.
pub open spec fn strip_ns(k: Seq<char>) -> Seq<char> {
    let p = "minecraft:"@;
    if p.len() <= k.len() && k.subrange(0, p.len() as int) == p {
        k.subrange(p.len() as int, k.len() as int)
    } else {
        k
    }
}

/// The text of a game rule's value and whether it is a boolean: bytes are booleans
/// (0 is false), ints and longs are written in decimal, strings stay; other values
/// have none.
pub open spec fn rule_text(v: NbtV) -> Option<(Seq<char>, bool)> {
    match v {
        NbtV::Byte(b) => if b == 0 {
            Some(("false"@, true))
        } else {
            Some(("true"@, true))
        },
        NbtV::Int(x) => Some((int_decimal(x as int), false)),
        NbtV::Long(x) => Some((int_decimal(x as int), false)),
        NbtV::String(s) => Some((s, false)),
        _ => None,
    }
}

/// The warning for a game rule whose value has no text (`shown` is how the value
/// prints).
pub open spec fn rule_warning(shown: Seq<char>, key: Seq<char>) -> Seq<char> {
    "Could not interpret value ("@ + shown + ") of game rule '"@ + key + "'; skipping."@
}

/// A game rule as its key, its value and the value's printed form.
pub open spec fn rules_view(s: Seq<(String, Nbt, String)>) -> Seq<(Seq<char>, NbtV, Seq<char>)> {
    Seq::new(s.len(), |i: int| (s[i].0@, nv(s[i].1), s[i].2@))
}

/// Game rules in the legacy form: string values under legacy names (an inverted
/// boolean rule gets the opposite value); rules without a text value are skipped with
/// a warning.
pub open spec fn rules_fold(rs: Seq<(Seq<char>, NbtV, Seq<char>)>, t: Tally) -> (Entries, Tally)
    decreases rs.len(),
{
    if rs.len() == 0 {
        (Seq::empty(), t)
    } else {
        let (acc, t1) = rules_fold(rs.drop_last(), t);
        let (key, v, shown) = rs.last();
        let name = strip_ns(key);
        match rule_text(v) {
            None => (acc, tw(t1, rule_warning(shown, key))),
            Some((sv, is_bool)) => match key_lookup(game_rule_inverted(), name) {
                Some(l) if is_bool => (
                    cins(
                        acc,
                        l,
                        NbtV::String(
                            if sv == "true"@ {
                                "false"@
                            } else {
                                "true"@
                            },
                        ),
                    ),
                    t1,
                ),
                _ => (
                    cins(
                        acc,
                        match key_lookup(game_rule_names(), name) {
                            Some(l) => l,
                            None => camel_from(name, false),
                        },
                        NbtV::String(sv),
                    ),
                    t1,
                ),
            },
        }
    }
}

fn rule_take(v: &mut Vec<(String, Nbt, String)>, i: usize) -> (r: (String, Nbt, String))
    requires
        i < old(v).len(),
    ensures
        r == old(v)@[i as int],
        final(v)@.len() == old(v)@.len(),
        forall|j: int| 0 <= j < old(v)@.len() && j != i ==> final(v)@[j] == old(v)@[j],
{
    let mut x = (String::new(), Nbt::Byte(0), String::new());
    std::mem::swap(&mut v[i], &mut x);
    x
}

fn rule_text_exec(v: Nbt) -> (r: Option<(String, bool)>)
    ensures
        match r {
            Some((s, b)) => rule_text(nv(v)) == Some((s@, b)),
            None => rule_text(nv(v)) is None,
        },
{
    match v {
        Nbt::Byte(b) => if b == 0 {
            Some((string_of("false"), true))
        } else {
            Some((string_of("true"), true))
        },
        Nbt::Int(x) => Some((i64_to_decimal(x as i64), false)),
        Nbt::Long(x) => Some((i64_to_decimal(x), false)),
        Nbt::String(s) => Some((s, false)),
        _ => None,
    }
}

/// Converts game rules to the legacy form (see [`rules_fold`]). Each rule comes with
/// the printed form of its value, for the warning about a value that has no text.
pub fn convert_game_rules(rules: Vec<(String, Nbt, String)>, report: &mut Report) -> (r: Vec<(String, Nbt)>)
    ensures
        (cv(r@), tally(*final(report))) == rules_fold(rules_view(rules@), tally(*old(report))),
        same_other_counters(*old(report), *final(report)),
{
    let names = game_rule_name_map();
    let inverted = game_rule_inverted_map();
    let ghost orig = rules_view(rules@);
    let ghost t0 = tally(*report);
    let ghost r0 = *report;
    let mut rules = rules;
    let n = rules.len();
    let mut conv = empty_entries();
    let mut i: usize = 0;
    assert(orig.take(0) =~= Seq::<(Seq<char>, NbtV, Seq<char>)>::empty());
    while i < n
        invariant
            n == rules@.len() == orig.len(),
            i <= n,
            forall|j: int| i <= j < n ==> (#[trigger] rules@[j]).0@ == orig[j].0 && nv(rules@[j].1)
                == orig[j].1 && rules@[j].2@ == orig[j].2,
            (cv(conv@), tally(*report)) == rules_fold(orig.take(i as int), t0),
            table_view(names@) == game_rule_names(),
            table_view(inverted@) == game_rule_inverted(),
            same_other_counters(r0, *report),
        decreases n - i,
    {
        let (key, value, shown) = rule_take(&mut rules, i);
        proof {
            assert(orig.take(i + 1).drop_last() =~= orig.take(i as int));
            assert(orig.take(i + 1).last() == orig[i as int]);
        }
        let name = strip_prefix_or_self(key.as_str(), "minecraft:");
        match rule_text_exec(value) {
            None => {
                let mut w = string_of("Could not interpret value (");
                append(&mut w, shown.as_str());
                append(&mut w, ") of game rule '");
                append(&mut w, key.as_str());
                append(&mut w, "'; skipping.");
                report.warn(w);
            },
            Some((text, is_bool)) => {
                let inv = lookup(&inverted, name.as_str());
                match inv {
                    Some(l) if is_bool => {
                        let flipped = if str_eq(text.as_str(), "true") {
                            "false"
                        } else {
                            "true"
                        };
                        insert(&mut conv, l, Nbt::String(string_of(flipped)));
                    },
                    _ => {
                        let legacy = match lookup(&names, name.as_str()) {
                            Some(l) => string_of(l),
                            None => snake_to_camel(name.as_str()),
                        };
                        insert(&mut conv, legacy.as_str(), Nbt::String(text));
                    },
                }
            },
        }
        i = i + 1;
    }
    assert(orig.take(n as int) =~= orig);
    conv
}

// ---------------------------------------------------------------- merging files

/// The warning for a key without a legacy name, merged under its own name.
pub open spec fn merge_warning(key: Seq<char>, file: Seq<char>) -> Seq<char> {
    "Unknown key '"@ + key + "' in "@ + file + " merged with its original name."@
}

/// The entries of a data file merged into the level data, in order: keys in the
/// table under their legacy names, others under their own names with a warning.
pub open spec fn merge_fold(
    es: Entries,
    d: Entries,
    table: Seq<(Seq<char>, Seq<char>)>,
    file: Seq<char>,
    t: Tally,
) -> (Entries, Tally)
    decreases es.len(),
{
    if es.len() == 0 {
        (d, t)
    } else {
        let (d1, t1) = merge_fold(es.drop_last(), d, table, file, t);
        let (k, v) = es.last();
        match key_lookup(table, k) {
            Some(l) => (cins(d1, l, v), t1),
            None => (cins(d1, k, v), tw(t1, merge_warning(k, file))),
        }
    }
}

/// Merges a data file into the level data (see [`merge_fold`]).
pub fn merge_with_key_map(
    map: Vec<(String, Nbt)>,
    data: &mut Vec<(String, Nbt)>,
    key_map: &Vec<(&'static str, &'static str)>,
    file: &str,
    report: &mut Report,
)
    ensures
        (cv(final(data)@), tally(*final(report))) == merge_fold(
            cv(map@),
            cv(old(data)@),
            table_view(key_map@),
            file@,
            tally(*old(report)),
        ),
        same_other_counters(*old(report), *final(report)),
{
    let ghost orig = cv(map@);
    let ghost d0 = cv(data@);
    let ghost t0 = tally(*report);
    let ghost r0 = *report;
    let mut map = map;
    let n = map.len();
    let mut i: usize = 0;
    proof {
        lemma_cv(map@);
        assert(orig.take(0) =~= Seq::<(Seq<char>, NbtV)>::empty());
    }
    while i < n
        invariant
            n == map@.len() == orig.len(),
            i <= n,
            forall|j: int| i <= j < n ==> (#[trigger] map@[j]).0@ == orig[j].0 && nv(map@[j].1) == orig[j].1,
            (cv(data@), tally(*report)) == merge_fold(orig.take(i as int), d0, table_view(key_map@), file@, t0),
            same_other_counters(r0, *report),
        decreases n - i,
    {
        let (k, v) = crate::nbt::entry_take(&mut map, i);
        proof {
            assert(orig.take(i + 1).drop_last() =~= orig.take(i as int));
            assert(orig.take(i + 1).last() == orig[i as int]);
        }
        match lookup(key_map, k.as_str()) {
            Some(l) => {
                insert(data, l, v);
            },
            None => {
                let mut w = string_of("Unknown key '");
                append(&mut w, k.as_str());
                append(&mut w, "' in ");
                append(&mut w, file);
                append(&mut w, " merged with its original name.");
                report.warn(w);
                insert(data, k.as_str(), v);
            },
        }
        i = i + 1;
    }
    assert(orig.take(n as int) =~= orig);
}

/// The world border value under its legacy name: the warning distance and time
/// become doubles when they are ints.
pub open spec fn border_value(l: Seq<char>, v: NbtV) -> NbtV {
    match v {
        NbtV::Int(x) => if l == "BorderWarningBlocks"@ || l == "BorderWarningTime"@ {
            NbtV::Double(int_to_double_bits(x))
        } else {
            v
        },
        _ => v,
    }
}

/// The warning for a world border key without a legacy name.
pub open spec fn border_warning(key: Seq<char>) -> Seq<char> {
    "Unknown key '"@ + key + "' in world_border.dat was ignored."@
}

/// The world border merged into the level data: known keys under their legacy names,
/// unknown keys dropped with a warning.
pub open spec fn border_fold(es: Entries, d: Entries, t: Tally) -> (Entries, Tally)
    decreases es.len(),
{
    if es.len() == 0 {
        (d, t)
    } else {
        let (d1, t1) = border_fold(es.drop_last(), d, t);
        let (k, v) = es.last();
        match key_lookup(world_border_table(), k) {
            Some(l) => (cins(d1, l, border_value(l, v)), t1),
            None => (d1, tw(t1, border_warning(k))),
        }
    }
}

fn merge_world_border(border: Vec<(String, Nbt)>, data: &mut Vec<(String, Nbt)>, report: &mut Report)
    ensures
        (cv(final(data)@), tally(*final(report))) == border_fold(cv(border@), cv(old(data)@), tally(*old(report))),
        same_other_counters(*old(report), *final(report)),
{
    let table = world_border_key_map();
    let ghost orig = cv(border@);
    let ghost d0 = cv(data@);
    let ghost t0 = tally(*report);
    let ghost r0 = *report;
    let mut border = border;
    let n = border.len();
    let mut i: usize = 0;
    proof {
        lemma_cv(border@);
        assert(orig.take(0) =~= Seq::<(Seq<char>, NbtV)>::empty());
    }
    while i < n
        invariant
            n == border@.len() == orig.len(),
            i <= n,
            forall|j: int| i <= j < n ==> (#[trigger] border@[j]).0@ == orig[j].0 && nv(border@[j].1) == orig[j].1,
            (cv(data@), tally(*report)) == border_fold(orig.take(i as int), d0, t0),
            table_view(table@) == world_border_table(),
            same_other_counters(r0, *report),
        decreases n - i,
    {
        let (k, v) = crate::nbt::entry_take(&mut border, i);
        proof {
            assert(orig.take(i + 1).drop_last() =~= orig.take(i as int));
            assert(orig.take(i + 1).last() == orig[i as int]);
        }
        match lookup(&table, k.as_str()) {
            Some(l) => {
                let value = match v {
                    Nbt::Int(x) => if str_eq(l, "BorderWarningBlocks") || str_eq(l, "BorderWarningTime") {
                        Nbt::Double(int_to_double(x))
                    } else {
                        Nbt::Int(x)
                    },
                    other => other,
                };
                insert(data, l, value);
            },
            None => {
                let mut w = string_of("Unknown key '");
                append(&mut w, k.as_str());
                append(&mut w, "' in world_border.dat was ignored.");
                report.warn(w);
            },
        }
        i = i + 1;
    }
    assert(orig.take(n as int) =~= orig);
}

/// The overworld's total ticks in the world clock file.
pub open spec fn day_time(clocks: Entries) -> Option<i64> {
    match cget(clocks, "minecraft:overworld"@) {
        Some(NbtV::Compound(o)) => match cget(o, "total_ticks"@) {
            Some(NbtV::Long(x)) => Some(x),
            _ => None,
        },
        _ => None,
    }
}

/// The warning for a world clock other than the overworld's, which older versions lack.
pub open spec fn clock_warning(key: Seq<char>) -> Seq<char> {
    "World clock '"@ + key + "' has no equivalent in older versions and was dropped."@
}

/// One warning for each clock of the world clock file other than the overworld's, in
/// order.
pub open spec fn clock_fold(clocks: Entries, t: Tally) -> Tally
    decreases clocks.len(),
{
    if clocks.len() == 0 {
        t
    } else {
        let t1 = clock_fold(clocks.drop_last(), t);
        let k = clocks.last().0;
        if k == "minecraft:overworld"@ {
            t1
        } else {
            tw(t1, clock_warning(k))
        }
    }
}

/// Reports each clock other than the overworld's as dropped (see [`clock_fold`]).
fn note_dropped_clocks(clocks: &Vec<(String, Nbt)>, report: &mut Report)
    ensures
        tally(*final(report)) == clock_fold(cv(clocks@), tally(*old(report))),
        same_other_counters(*old(report), *final(report)),
{
    let ghost c = cv(clocks@);
    let ghost t0 = tally(*report);
    let ghost r0 = *report;
    let n = clocks.len();
    let mut i: usize = 0;
    proof {
        lemma_cv(clocks@);
        assert(c.take(0) =~= Seq::<(Seq<char>, NbtV)>::empty());
    }
    while i < n
        invariant
            n == clocks@.len() == c.len(),
            c == cv(clocks@),
            i <= n,
            forall|j: int| 0 <= j < n ==> #[trigger] c[j] == (clocks@[j].0@, nv(clocks@[j].1)),
            tally(*report) == clock_fold(c.take(i as int), t0),
            same_other_counters(r0, *report),
        decreases n - i,
    {
        let k: &String = &clocks[i].0;
        proof {
            assert(c.take(i + 1).drop_last() =~= c.take(i as int));
            assert(c.take(i + 1).last() == c[i as int]);
        }
        if !str_eq(k.as_str(), "minecraft:overworld") {
            let mut w = string_of("World clock '");
            append(&mut w, k.as_str());
            append(&mut w, "' has no equivalent in older versions and was dropped.");
            report.warn(w);
        }
        i = i + 1;
    }
    assert(c.take(n as int) =~= c);
}

/// The compound of an optional file.
pub open spec fn opt_entries(o: Option<Vec<(String, Nbt)>>) -> Option<Entries> {
    match o {
        Some(m) => Some(cv(m@)),
        None => None,
    }
}

/// The shared data files of a world (`data/minecraft/*.dat`, unwrapped), each `None`
/// when the file does not exist. Game rules come with the printed form of each value.
pub struct SharedData {
    pub game_rules: Option<Vec<(String, Nbt, String)>>,
    pub weather: Option<Vec<(String, Nbt)>>,
    pub world_gen_settings: Option<Vec<(String, Nbt)>>,
    pub custom_boss_events: Option<Vec<(String, Nbt)>>,
    pub scheduled_events: Option<Vec<(String, Nbt)>>,
    pub world_clocks: Option<Vec<(String, Nbt)>>,
    pub wandering_trader: Option<Vec<(String, Nbt)>>,
}

/// The shared data files merged into the level data, in this order: game rules (as
/// `GameRules`), weather, world generation settings, boss events, scheduled events,
/// wandering trader and the overworld's clock (as `DayTime`); each other clock is
/// dropped with a warning.
pub open spec fn shared_spec(d: Entries, f: SharedData, t: Tally) -> (Entries, Tally) {
    let (d1, t1) = match f.game_rules {
        Some(rs) => {
            let (conv, ta) = rules_fold(rules_view(rs@), t);
            (cins(d, "GameRules"@, NbtV::Compound(conv)), ta)
        },
        None => (d, t),
    };
    let (d2, t2) = match opt_entries(f.weather) {
        Some(w) => merge_fold(w, d1, weather_table(), "weather.dat"@, t1),
        None => (d1, t1),
    };
    let d3 = match opt_entries(f.world_gen_settings) {
        Some(s) => cins(d2, "WorldGenSettings"@, NbtV::Compound(s)),
        None => d2,
    };
    let d4 = match opt_entries(f.custom_boss_events) {
        Some(b) => cins(d3, "CustomBossEvents"@, NbtV::Compound(b)),
        None => d3,
    };
    let d5 = match opt_entries(f.scheduled_events) {
        Some(s) => match cget(s, "events"@) {
            Some(NbtV::List(l)) => cins(d4, "ScheduledEvents"@, NbtV::List(l)),
            _ => d4,
        },
        None => d4,
    };
    let (d6, t6) = match opt_entries(f.wandering_trader) {
        Some(w) => merge_fold(w, d5, trader_table(), "wandering_trader.dat"@, t2),
        None => (d5, t2),
    };
    let (d7, t7) = match opt_entries(f.world_clocks) {
        Some(c) => (
            match day_time(c) {
                Some(x) => cins(d6, "DayTime"@, NbtV::Long(x)),
                None => d6,
            },
            clock_fold(c, t6),
        ),
        None => (d6, t6),
    };
    (d7, t7)
}

/// Merges the shared data files into the level data (see [`shared_spec`]).
pub fn merge_shared_files(data: &mut Vec<(String, Nbt)>, files: SharedData, report: &mut Report)
    ensures
        (cv(final(data)@), tally(*final(report))) == shared_spec(cv(old(data)@), files, tally(*old(report))),
        same_other_counters(*old(report), *final(report)),
{
    let ghost f = files;
    let SharedData {
        game_rules,
        weather,
        world_gen_settings,
        custom_boss_events,
        scheduled_events,
        world_clocks,
        wandering_trader,
    } = files;
    match game_rules {
        Some(rules) => {
            let converted = convert_game_rules(rules, report);
            insert(data, "GameRules", Nbt::Compound(converted));
        },
        None => {},
    }
    match weather {
        Some(w) => {
            let table = weather_key_map();
            merge_with_key_map(w, data, &table, "weather.dat", report);
        },
        None => {},
    }
    match world_gen_settings {
        Some(s) => insert(data, "WorldGenSettings", Nbt::Compound(s)),
        None => {},
    }
    match custom_boss_events {
        Some(b) => insert(data, "CustomBossEvents", Nbt::Compound(b)),
        None => {},
    }
    match scheduled_events {
        Some(mut s) => match remove(&mut s, "events") {
            Some(Nbt::List(l)) => insert(data, "ScheduledEvents", Nbt::List(l)),
            _ => {},
        },
        None => {},
    }
    match wandering_trader {
        Some(w) => {
            let table = trader_key_map();
            merge_with_key_map(w, data, &table, "wandering_trader.dat", report);
        },
        None => {},
    }
    match world_clocks {
        Some(c) => {
            match get(&c, "minecraft:overworld") {
                Some(Nbt::Compound(o)) => match get(o, "total_ticks") {
                    Some(Nbt::Long(x)) => insert(data, "DayTime", Nbt::Long(*x)),
                    _ => {},
                },
                _ => {},
            }
            note_dropped_clocks(&c, report);
        },
        None => {},
    }
}

/// The per-dimension data files merged into the level data: the End's dragon fight
/// (keys renamed, as `DragonFight`) and the overworld's world border.
pub open spec fn dimension_spec(d: Entries, dragon: Option<Entries>, border: Option<Entries>, t: Tally) -> (Entries, Tally) {
    let (d1, t1) = match dragon {
        Some(f) => {
            let (conv, ta) = pascal_rename_fold(f, dragon_fight_table(), "ender_dragon_fight.dat"@, t);
            (cins(d, "DragonFight"@, NbtV::Compound(conv)), ta)
        },
        None => (d, t),
    };
    match border {
        Some(b) => border_fold(b, d1, t1),
        None => (d1, t1),
    }
}

/// Merges the dimension data files into the level data (see [`dimension_spec`]).
pub fn merge_dimension_files(
    data: &mut Vec<(String, Nbt)>,
    dragon_fight: Option<Vec<(String, Nbt)>>,
    world_border: Option<Vec<(String, Nbt)>>,
    report: &mut Report,
)
    ensures
        (cv(final(data)@), tally(*final(report))) == dimension_spec(
            cv(old(data)@),
            opt_entries(dragon_fight),
            opt_entries(world_border),
            tally(*old(report)),
        ),
        same_other_counters(*old(report), *final(report)),
{
    match dragon_fight {
        Some(f) => {
            let table = dragon_fight_key_map();
            let converted = pascal_rename(f, &table, "ender_dragon_fight.dat", report);
            insert(data, "DragonFight", Nbt::Compound(converted));
        },
        None => {},
    }
    match world_border {
        Some(b) => merge_world_border(b, data, report),
        None => {},
    }
}

// ---------------------------------------------------------------- the singleplayer

/// The level data without `singleplayer_uuid`, and the player's UUID text when the
/// record is an int array of four; otherwise a warning.
pub open spec fn singleplayer_spec(c: Entries, t: Tally) -> (Entries, Tally, Option<Seq<char>>) {
    match cget(c, "singleplayer_uuid"@) {
        None => (c, t, None),
        Some(NbtV::IntArray(a)) => if a.len() == 4 {
            (crem(c, "singleplayer_uuid"@), t, Some(uuid_spec(a)))
        } else {
            (
                crem(c, "singleplayer_uuid"@),
                tw(t, "singleplayer_uuid length is not 4; skipping player embedding."@),
                None,
            )
        },
        Some(_) => (
            crem(c, "singleplayer_uuid"@),
            tw(t, "singleplayer_uuid has an unexpected format; skipping player embedding."@),
            None,
        ),
    }
}

/// Removes the singleplayer's UUID from the level data and returns its text, the
/// stem of the player file to embed (see [`singleplayer_spec`]).
pub fn take_singleplayer_uuid(data: &mut Vec<(String, Nbt)>, report: &mut Report) -> (r: Option<String>)
    ensures
        ({
            let (c, t, u) = singleplayer_spec(cv(old(data)@), tally(*old(report)));
            &&& cv(final(data)@) == c
            &&& tally(*final(report)) == t
            &&& match r {
                Some(s) => u == Some(s@),
                None => u is None,
            }
        }),
        same_other_counters(*old(report), *final(report)),
{
    match remove(data, "singleplayer_uuid") {
        None => None,
        Some(Nbt::IntArray(a)) => {
            if a.len() != 4 {
                report.warn(string_of("singleplayer_uuid length is not 4; skipping player embedding."));
                None
            } else {
                Some(format_uuid(a.as_slice()))
            }
        },
        Some(_) => {
            report.warn(
                string_of("singleplayer_uuid has an unexpected format; skipping player embedding."),
            );
            None
        },
    }
}

/// The warning for a singleplayer whose player file was not found.
pub open spec fn missing_player_warning(uuid: Seq<char>) -> Seq<char> {
    "Could not find the singleplayer data file (uuid: "@ + uuid
        + "). The world may start with a fresh player in older versions."@
}

/// A player file as its parsed root and the path it was read from.
pub open spec fn player_view(p: Option<(Nbt, String)>) -> Option<(NbtV, Seq<char>)> {
    match p {
        Some((v, path)) => Some((nv(v), path@)),
        None => None,
    }
}

/// The singleplayer's file embedded as `Player`: its data version set to the target
/// (where it has one) and its contents downgraded; a missing or malformed file is
/// reported instead. No result where the downgrade has none.
pub open spec fn embed_spec(c: Entries, uuid: Seq<char>, player: Option<(NbtV, Seq<char>)>, dv: i32, t: Tally) -> Option<(Entries, Tally)> {
    match player {
        None => Some((c, tw(t, missing_player_warning(uuid)))),
        Some((NbtV::Compound(m), _)) => match downgrade_spec(crate::data_files::rewrite_dv_spec(m, dv), dv, t) {
            None => None,
            Some((m2, t2)) => Some((cins(c, "Player"@, NbtV::Compound(m2)), t2)),
        },
        Some((_, path)) => Some((c, tw(t, "Player file has an unexpected format: "@ + path))),
    }
}

/// Embeds the singleplayer's file, found by its UUID (see [`embed_spec`]).
pub fn embed_player(
    data: &mut Vec<(String, Nbt)>,
    uuid: &str,
    player: Option<(Nbt, String)>,
    target_data_version: i32,
    report: &mut Report,
)
    requires
        embed_spec(cv(old(data)@), uuid@, player_view(player), target_data_version, tally(*old(report)))
            matches Some((_, t)) && fits(t),
    ensures
        embed_spec(cv(old(data)@), uuid@, player_view(player), target_data_version, tally(*old(report)))
            == Some((cv(final(data)@), tally(*final(report)))),
        same_other_counters(*old(report), *final(report)),
{
    let ok = try_embed_player(data, uuid, player, target_data_version, report);
}

/// Embeds the singleplayer's file as [`embed_player`] does where its contents can be
/// downgraded, and says whether they could: false exactly where [`embed_spec`] has no
/// result or the report's counters would overflow (the level data and the report are
/// then left part-way).
pub fn try_embed_player(
    data: &mut Vec<(String, Nbt)>,
    uuid: &str,
    player: Option<(Nbt, String)>,
    target_data_version: i32,
    report: &mut Report,
) -> (ok: bool)
    ensures
        ok == (embed_spec(cv(old(data)@), uuid@, player_view(player), target_data_version, tally(*old(report)))
            matches Some((_, t)) && fits(t)),
        ok ==> embed_spec(cv(old(data)@), uuid@, player_view(player), target_data_version, tally(*old(report)))
            == Some((cv(final(data)@), tally(*final(report)))),
        same_other_counters(*old(report), *final(report)),
{
    match player {
        None => {
            let mut w = string_of("Could not find the singleplayer data file (uuid: ");
            append(&mut w, uuid);
            append(&mut w, "). The world may start with a fresh player in older versions.");
            report.warn(w);
        },
        Some((Nbt::Compound(mut m), _)) => {
            if contains_key(&m, "DataVersion") {
                insert(&mut m, "DataVersion", Nbt::Int(target_data_version));
            }
            if !try_downgrade_compound(&mut m, target_data_version, report) {
                return false;
            }
            insert(data, "Player", Nbt::Compound(m));
        },
        Some((_, path)) => {
            let mut w = string_of("Player file has an unexpected format: ");
            append(&mut w, path.as_str());
            report.warn(w);
        },
    }
    true
}

// ---------------------------------------------------------------- the whole file

/// The root compound of `level.dat` and its `Data` compound, or the NBT error for a
/// root that is no compound or has no `Data` compound.
pub fn split_level_root(root: Nbt) -> (r: Result<(Vec<(String, Nbt)>, Vec<(String, Nbt)>), Error>)
    ensures
        match r {
            Ok((rest, data)) => nv(root) matches NbtV::Compound(m) && cget(m, "Data"@) == Some(
                NbtV::Compound(cv(data@)),
            ) && cv(rest@) == crem(m, "Data"@),
            Err(e) => e matches Error::Nbt { context: c, message: msg } && c@ == "level.dat"@ && (
            match nv(root) {
                NbtV::Compound(m) => !(cget(m, "Data"@) matches Some(NbtV::Compound(_))) && msg@
                    == "missing Data compound"@,
                _ => msg@ == "root tag is not a compound"@,
            }),
        },
{
    match root {
        Nbt::Compound(mut m) => match remove(&mut m, "Data") {
            Some(Nbt::Compound(data)) => Ok((m, data)),
            _ => Err(Error::nbt("level.dat", "missing Data compound")),
        },
        _ => Err(Error::nbt("level.dat", "root tag is not a compound")),
    }
}

/// The level data after the steps that need no player file: difficulty, spawn, the
/// shared and the dimension data files, and the singleplayer's UUID taken out.
pub open spec fn prepare_spec(
    c: Entries,
    shared: SharedData,
    dragon: Option<Entries>,
    border: Option<Entries>,
    t: Tally,
) -> (Entries, Tally, Option<Seq<char>>) {
    let (c1, t1) = difficulty_spec(c, t);
    let (c2, t2) = spawn_spec(c1, t1);
    let (c3, t3) = shared_spec(c2, shared, t2);
    let (c4, t4) = dimension_spec(c3, dragon, border, t3);
    singleplayer_spec(c4, t4)
}

/// Merging a data file keeps the level data free of repeated keys.
proof fn lemma_merge_fold_unique(
    es: Entries,
    d: Entries,
    table: Seq<(Seq<char>, Seq<char>)>,
    file: Seq<char>,
    t: Tally,
)
    requires
        unique_keys(d),
    ensures
        unique_keys(merge_fold(es, d, table, file, t).0),
    decreases es.len(),
{
    broadcast use crate::nbt::lemma_cins_keeps_unique;
    if es.len() > 0 {
        lemma_merge_fold_unique(es.drop_last(), d, table, file, t);
    }
}

/// Merging the world border keeps the level data free of repeated keys.
proof fn lemma_border_fold_unique(es: Entries, d: Entries, t: Tally)
    requires
        unique_keys(d),
    ensures
        unique_keys(border_fold(es, d, t).0),
    decreases es.len(),
{
    broadcast use crate::nbt::lemma_cins_keeps_unique;
    if es.len() > 0 {
        lemma_border_fold_unique(es.drop_last(), d, t);
    }
}

/// Rebuilding the level data keeps it free of repeated keys.
pub proof fn lemma_rebuild_keeps_unique_keys(
    c: Entries,
    shared: SharedData,
    dragon: Option<Entries>,
    border: Option<Entries>,
    t: Tally,
)
    requires
        unique_keys(c),
    ensures
        unique_keys(prepare_spec(c, shared, dragon, border, t).0),
{
    broadcast use crate::nbt::lemma_cins_keeps_unique, crate::nbt::lemma_crem_keeps_unique;
    let (c1, t1) = difficulty_spec(c, t);
    assert(unique_keys(c1));
    let (c2, t2) = spawn_spec(c1, t1);
    assert(unique_keys(c2));
    let f = shared;
    let (d1, u1) = match f.game_rules {
        Some(rs) => {
            let (conv, ta) = rules_fold(rules_view(rs@), t2);
            (cins(c2, "GameRules"@, NbtV::Compound(conv)), ta)
        },
        None => (c2, t2),
    };
    let (d2, u2) = match opt_entries(f.weather) {
        Some(w) => {
            lemma_merge_fold_unique(w, d1, weather_table(), "weather.dat"@, u1);
            merge_fold(w, d1, weather_table(), "weather.dat"@, u1)
        },
        None => (d1, u1),
    };
    let d3 = match opt_entries(f.world_gen_settings) {
        Some(s) => cins(d2, "WorldGenSettings"@, NbtV::Compound(s)),
        None => d2,
    };
    let d4 = match opt_entries(f.custom_boss_events) {
        Some(b) => cins(d3, "CustomBossEvents"@, NbtV::Compound(b)),
        None => d3,
    };
    let d5 = match opt_entries(f.scheduled_events) {
        Some(s) => match cget(s, "events"@) {
            Some(NbtV::List(l)) => cins(d4, "ScheduledEvents"@, NbtV::List(l)),
            _ => d4,
        },
        None => d4,
    };
    match opt_entries(f.wandering_trader) {
        Some(w) => lemma_merge_fold_unique(w, d5, trader_table(), "wandering_trader.dat"@, u2),
        None => {},
    }
    let (c3, t3) = shared_spec(c2, shared, t2);
    assert(unique_keys(c3));
    let (e1, s1) = match dragon {
        Some(fi) => {
            let (conv, ta) = pascal_rename_fold(fi, dragon_fight_table(), "ender_dragon_fight.dat"@, t3);
            (cins(c3, "DragonFight"@, NbtV::Compound(conv)), ta)
        },
        None => (c3, t3),
    };
    match border {
        Some(b) => lemma_border_fold_unique(b, e1, s1),
        None => {},
    }
    let (c4, t4) = dimension_spec(c3, dragon, border, t3);
    assert(unique_keys(c4));
}

/// Rebuilds the level data from the world's data files (see [`prepare_spec`]) and
/// returns the singleplayer's UUID, whose player file is to be embedded next.
pub fn downgrade_level_dat(
    data: &mut Vec<(String, Nbt)>,
    shared: SharedData,
    dragon_fight: Option<Vec<(String, Nbt)>>,
    world_border: Option<Vec<(String, Nbt)>>,
    report: &mut Report,
) -> (r: Option<String>)
    ensures
        ({
            let (c, t, u) = prepare_spec(
                cv(old(data)@),
                shared,
                opt_entries(dragon_fight),
                opt_entries(world_border),
                tally(*old(report)),
            );
            &&& cv(final(data)@) == c
            &&& tally(*final(report)) == t
            &&& match r {
                Some(s) => u == Some(s@),
                None => u is None,
            }
        }),
        same_other_counters(*old(report), *final(report)),
{
    apply_difficulty(data, report);
    apply_spawn(data, report);
    merge_shared_files(data, shared, report);
    merge_dimension_files(data, dragon_fight, world_border, report);
    take_singleplayer_uuid(data, report)
}

/// A UUID text has 36 characters: 32 hexadecimal digits in groups of 8, 4, 4, 4 and
/// 12, with dashes between them.
pub proof fn lemma_uuid_shape(parts: Seq<i32>)
    ensures
        uuid_spec(parts).len() == 36,
        uuid_spec(parts)[8] == '-' && uuid_spec(parts)[13] == '-' && uuid_spec(parts)[18] == '-'
            && uuid_spec(parts)[23] == '-',
{
    lemma_hex_len(uuid_value(parts), 32);
}

} // verus!
