//! Rules that rewrite entity, block-entity and player compounds into the shapes that
//! versions before 1.21.5 read: equipment, fall distance, names and sign text as JSON,
//! respawn points, hanging entities, furnaces, paintings, status effects, attributes
//! and signs.
use vstd::prelude::*;
use crate::nbt::{
    lemma_lv, lemma_cget_cins_other, lemma_cget_cins_same, lemma_cget_crem_other, cget, cins, cmod, contains_key, crem, cv, empty_compound, get, has_key, insert, lemma_cins_same,
    lemma_cv_empty, lemma_lv_empty, lemma_lv_push, list_take, lv, nv, remove, restore, take, Entries,
    Nbt, NbtV,
};
use crate::report::{fits, same_other_counters, tally, td, Report, Tally};
use crate::text::{
    concat2, concat3, contains_char, json_text, json_text_object, starts_with_char, str_eq,
    string_of, strip_prefix_or_self,
};
use crate::ieee::{narrow_double, narrow_double_bits};

verus! {

// ---------------------------------------------------------------- text components

/// The JSON text component that stands for a plain or structured text: a string that
/// already starts like JSON (`{`, `"` or `[`) is kept, another string becomes
/// `{"text": s}`, a compound becomes `{"text": t}` of its `text` string (empty when
/// missing); other values have none.
pub open spec fn text_json(v: NbtV) -> Option<Seq<char>> {
    match v {
        NbtV::String(s) => if s.len() > 0 && (s[0] == '{' || s[0] == '"' || s[0] == '[') {
            Some(s)
        } else {
            Some(json_text_object(s))
        },
        NbtV::Compound(m) => Some(
            json_text_object(
                match cget(m, "text"@) {
                    Some(NbtV::String(t)) => t,
                    _ => Seq::empty(),
                },
            ),
        ),
        _ => None,
    }
}

/// The value with a text turned into its JSON string where it has one.
pub open spec fn json_or_same(v: NbtV) -> NbtV {
    match text_json(v) {
        Some(j) => NbtV::String(j),
        None => v,
    }
}

/// Every element of a list turned into its JSON string where it has one.
pub open spec fn json_list(l: Seq<NbtV>) -> Seq<NbtV> {
    Seq::new(l.len(), |i: int| json_or_same(l[i]))
}

/// Computes [`text_json`].
pub fn text_to_json(v: &Nbt) -> (r: Option<String>)
    ensures
        match r {
            Some(s) => text_json(nv(*v)) == Some(s@),
            None => text_json(nv(*v)) is None,
        },
{
    match v {
        Nbt::String(s) => {
            if starts_with_char(s.as_str(), '{') || starts_with_char(s.as_str(), '"')
                || starts_with_char(s.as_str(), '[') {
                Some(s.clone())
            } else {
                Some(json_text(s.as_str()))
            }
        },
        Nbt::Compound(m) => {
            match get(m, "text") {
                Some(Nbt::String(t)) => Some(json_text(t.as_str())),
                _ => {
                    let r = json_text("");
                    proof {
                        reveal_strlit("");
                    }
                    Some(r)
                },
            }
        },
        _ => None,
    }
}

/// Turns every element of a list into its JSON string where it has one.
pub fn json_list_in_place(l: &mut Vec<Nbt>)
    ensures
        lv(final(l)@) == json_list(lv(old(l)@)),
{
    let ghost orig = lv(l@);
    let n = l.len();
    let mut i: usize = 0;
    while i < n
        invariant
            n == l@.len() == orig.len(),
            i <= n,
            orig == lv(old(l)@),
            forall|j: int| 0 <= j < i ==> #[trigger] nv(l@[j]) == json_or_same(orig[j]),
            forall|j: int| i <= j < n ==> #[trigger] nv(l@[j]) == orig[j],
        decreases n - i,
    {
        match text_to_json(&l[i]) {
            Some(j) => {
                l.set(i, Nbt::String(j));
            },
            None => {},
        }
        i = i + 1;
    }
    proof {
        lemma_lv(l@);
    }
    assert(lv(l@) =~= json_list(orig));
}

// ---------------------------------------------------------------- equipment

/// Removes a slot from the equipment, giving its item or an empty compound.
pub open spec fn take_slot(e: Entries, k: Seq<char>) -> (Entries, NbtV) {
    (
        crem(e, k),
        match cget(e, k) {
            Some(v) => v,
            None => NbtV::Compound(Seq::empty()),
        },
    )
}

/// `equipment` (a compound of slots) split into `HandItems` (main hand, off hand),
/// `ArmorItems` (feet, legs, chest, head), `body_armor_item` and `SaddleItem`.
/// A non-compound `equipment` is removed.
pub open spec fn split_equipment_spec(c: Entries) -> Entries {
    match cget(c, "equipment"@) {
        None => c,
        Some(NbtV::Compound(e0)) => {
            let c1 = crem(c, "equipment"@);
            let (e1, mainhand) = take_slot(e0, "mainhand"@);
            let (e2, offhand) = take_slot(e1, "offhand"@);
            let (e3, feet) = take_slot(e2, "feet"@);
            let (e4, legs) = take_slot(e3, "legs"@);
            let (e5, chest) = take_slot(e4, "chest"@);
            let (e6, head) = take_slot(e5, "head"@);
            let c2 = cins(c1, "HandItems"@, NbtV::List(seq![mainhand, offhand]));
            let c3 = cins(c2, "ArmorItems"@, NbtV::List(seq![feet, legs, chest, head]));
            let c4 = match cget(e6, "body"@) {
                Some(b) => cins(c3, "body_armor_item"@, b),
                None => c3,
            };
            let e7 = crem(e6, "body"@);
            match cget(e7, "saddle"@) {
                Some(s) => cins(c4, "SaddleItem"@, s),
                None => c4,
            }
        },
        Some(_) => crem(c, "equipment"@),
    }
}

/// The item in slot `k` of an equipment compound, or an empty compound where the slot
/// is missing.
pub open spec fn slot_or_empty(e: Entries, k: Seq<char>) -> NbtV {
    match cget(e, k) {
        Some(v) => v,
        None => NbtV::Compound(Seq::empty()),
    }
}

/// Splitting the equipment puts the items of the `mainhand` and `offhand` slots into
/// `HandItems`, in that order, and those of the `feet`, `legs`, `chest` and `head`
/// slots into `ArmorItems`, in that order; a slot that is missing gives an empty
/// compound.
pub proof fn lemma_equipment_slots_in_order(c: Entries, e: Entries)
    requires
        cget(c, "equipment"@) == Some(NbtV::Compound(e)),
    ensures
        cget(split_equipment_spec(c), "HandItems"@) == Some(
            NbtV::List(
                seq![
                    slot_or_empty(e, "mainhand"@),
                    slot_or_empty(e, "offhand"@),
                ],
            ),
        ),
        cget(split_equipment_spec(c), "ArmorItems"@) == Some(
            NbtV::List(
                seq![
                    slot_or_empty(e, "feet"@),
                    slot_or_empty(e, "legs"@),
                    slot_or_empty(e, "chest"@),
                    slot_or_empty(e, "head"@),
                ],
            ),
        ),
{
    reveal_strlit("mainhand");
    reveal_strlit("offhand");
    reveal_strlit("feet");
    reveal_strlit("legs");
    reveal_strlit("chest");
    reveal_strlit("head");
    reveal_strlit("HandItems");
    reveal_strlit("ArmorItems");
    reveal_strlit("body_armor_item");
    reveal_strlit("SaddleItem");
    assert("mainhand"@[0] == 'm' && "offhand"@[0] == 'o' && "feet"@[0] == 'f' && "legs"@[0] == 'l');
    assert("chest"@[0] == 'c' && "head"@[0] == 'h');
    assert("HandItems"@[0] == 'H' && "ArmorItems"@[0] == 'A' && "body_armor_item"@[0] == 'b' && "SaddleItem"@[0] == 'S');
    let e1 = crem(e, "mainhand"@);
    let e2 = crem(e1, "offhand"@);
    let e3 = crem(e2, "feet"@);
    let e4 = crem(e3, "legs"@);
    let e5 = crem(e4, "chest"@);
    lemma_cget_crem_other(e, "mainhand"@, "offhand"@);
    lemma_cget_crem_other(e, "mainhand"@, "feet"@);
    lemma_cget_crem_other(e1, "offhand"@, "feet"@);
    lemma_cget_crem_other(e, "mainhand"@, "legs"@);
    lemma_cget_crem_other(e1, "offhand"@, "legs"@);
    lemma_cget_crem_other(e2, "feet"@, "legs"@);
    lemma_cget_crem_other(e, "mainhand"@, "chest"@);
    lemma_cget_crem_other(e1, "offhand"@, "chest"@);
    lemma_cget_crem_other(e2, "feet"@, "chest"@);
    lemma_cget_crem_other(e3, "legs"@, "chest"@);
    lemma_cget_crem_other(e, "mainhand"@, "head"@);
    lemma_cget_crem_other(e1, "offhand"@, "head"@);
    lemma_cget_crem_other(e2, "feet"@, "head"@);
    lemma_cget_crem_other(e3, "legs"@, "head"@);
    lemma_cget_crem_other(e4, "chest"@, "head"@);
    let c1 = crem(c, "equipment"@);
    let hands = NbtV::List(seq![take_slot(e, "mainhand"@).1, take_slot(e1, "offhand"@).1]);
    let c2 = cins(c1, "HandItems"@, hands);
    let armor = NbtV::List(
        seq![take_slot(e2, "feet"@).1, take_slot(e3, "legs"@).1, take_slot(e4, "chest"@).1, take_slot(e5, "head"@).1],
    );
    let c3 = cins(c2, "ArmorItems"@, armor);
    lemma_cget_cins_same(c1, "HandItems"@, hands);
    lemma_cget_cins_other(c2, "ArmorItems"@, armor, "HandItems"@);
    lemma_cget_cins_same(c2, "ArmorItems"@, armor);
    let e6 = crem(e5, "head"@);
    let c4 = match cget(e6, "body"@) {
        Some(b) => {
            lemma_cget_cins_other(c3, "body_armor_item"@, b, "HandItems"@);
            lemma_cget_cins_other(c3, "body_armor_item"@, b, "ArmorItems"@);
            cins(c3, "body_armor_item"@, b)
        },
        None => c3,
    };
    let e7 = crem(e6, "body"@);
    let c5 = match cget(e7, "saddle"@) {
        Some(s) => {
            lemma_cget_cins_other(c4, "SaddleItem"@, s, "HandItems"@);
            lemma_cget_cins_other(c4, "SaddleItem"@, s, "ArmorItems"@);
            cins(c4, "SaddleItem"@, s)
        },
        None => c4,
    };
    assert(split_equipment_spec(c) == c5);
    assert(take_slot(e1, "offhand"@).1 == slot_or_empty(e, "offhand"@));
    assert(take_slot(e2, "feet"@).1 == slot_or_empty(e, "feet"@));
    assert(take_slot(e3, "legs"@).1 == slot_or_empty(e, "legs"@));
    assert(take_slot(e4, "chest"@).1 == slot_or_empty(e, "chest"@));
    assert(take_slot(e5, "head"@).1 == slot_or_empty(e, "head"@));
    assert(seq![take_slot(e, "mainhand"@).1, take_slot(e1, "offhand"@).1] =~= seq![
        slot_or_empty(e, "mainhand"@),
        slot_or_empty(e, "offhand"@),
    ]);
    assert(seq![take_slot(e2, "feet"@).1, take_slot(e3, "legs"@).1, take_slot(e4, "chest"@).1, take_slot(e5, "head"@).1]
        =~= seq![slot_or_empty(e, "feet"@), slot_or_empty(e, "legs"@), slot_or_empty(e, "chest"@), slot_or_empty(e, "head"@)]);
    assert(cget(c5, "HandItems"@) == Some(hands));
    assert(cget(c5, "ArmorItems"@) == Some(armor));
}

fn take_slot_exec(e: &mut Vec<(String, Nbt)>, k: &str) -> (r: Nbt)
    ensures
        (cv(final(e)@), nv(r)) == take_slot(cv(old(e)@), k@),
{
    match remove(e, k) {
        Some(v) => v,
        None => empty_compound(),
    }
}

/// Splits `equipment` (see [`split_equipment_spec`]).
pub fn split_equipment(c: &mut Vec<(String, Nbt)>)
    ensures
        cv(final(c)@) == split_equipment_spec(cv(old(c)@)),
{
    match remove(c, "equipment") {
        Some(Nbt::Compound(mut e)) => {
            let mainhand = take_slot_exec(&mut e, "mainhand");
            let offhand = take_slot_exec(&mut e, "offhand");
            let feet = take_slot_exec(&mut e, "feet");
            let legs = take_slot_exec(&mut e, "legs");
            let chest = take_slot_exec(&mut e, "chest");
            let head = take_slot_exec(&mut e, "head");
            let ghost (vm, vo, vf, vl, vc, vh) = (
                nv(mainhand),
                nv(offhand),
                nv(feet),
                nv(legs),
                nv(chest),
                nv(head),
            );
            let hand = vec![mainhand, offhand];
            assert(lv(hand@) =~= seq![vm, vo]);
            insert(c, "HandItems", Nbt::List(hand));
            let armor = vec![feet, legs, chest, head];
            assert(lv(armor@) =~= seq![vf, vl, vc, vh]);
            insert(c, "ArmorItems", Nbt::List(armor));
            match remove(&mut e, "body") {
                Some(b) => insert(c, "body_armor_item", b),
                None => {},
            }
            match remove(&mut e, "saddle") {
                Some(s) => insert(c, "SaddleItem", s),
                None => {},
            }
        },
        _ => {},
    }
}

// ---------------------------------------------------------------- fall distance

/// `fall_distance` renamed `FallDistance` as a single-precision float: a double is
/// narrowed, a float kept, anything else becomes zero.
pub open spec fn fall_distance_spec(c: Entries) -> Entries {
    match cget(c, "fall_distance"@) {
        None => c,
        Some(v) => cins(
            crem(c, "fall_distance"@),
            "FallDistance"@,
            NbtV::Float(
                match v {
                    NbtV::Double(d) => narrow_double_bits(d),
                    NbtV::Float(f) => f,
                    _ => 0,
                },
            ),
        ),
    }
}

/// Renames `fall_distance` (see [`fall_distance_spec`]).
pub fn rename_fall_distance(c: &mut Vec<(String, Nbt)>)
    ensures
        cv(final(c)@) == fall_distance_spec(cv(old(c)@)),
{
    match remove(c, "fall_distance") {
        Some(v) => {
            let fall: u32 = match v {
                Nbt::Double(d) => narrow_double(d),
                Nbt::Float(f) => f,
                _ => 0,
            };
            insert(c, "FallDistance", Nbt::Float(fall));
        },
        None => {},
    }
}

// ---------------------------------------------------------------- custom name

/// `CustomName` rewritten as a JSON text; a name without a JSON form is dropped with
/// a warning.
pub open spec fn custom_name_spec(c: Entries, t: Tally) -> (Entries, Tally) {
    match cget(c, "CustomName"@) {
        None => (c, t),
        Some(v) => match text_json(v) {
            Some(j) => (cins(c, "CustomName"@, NbtV::String(j)), t),
            None => (
                crem(c, "CustomName"@),
                td(t, "A custom name could not be converted to the pre-1.21.5 format."@),
            ),
        },
    }
}

/// Normalises `CustomName` (see [`custom_name_spec`]).
pub fn normalize_custom_name(c: &mut Vec<(String, Nbt)>, report: &mut Report)
    requires
        fits(custom_name_spec(cv(old(c)@), tally(*old(report))).1),
    ensures
        (cv(final(c)@), tally(*final(report))) == custom_name_spec(
            cv(old(c)@),
            tally(*old(report)),
        ),
        same_other_counters(*old(report), *final(report)),
{
    let ok = normalize_custom_name_exec(c, report);
}

/// Normalises `CustomName`; false, part-way, exactly where the report's counters would overflow.
pub(crate) fn normalize_custom_name_exec(c: &mut Vec<(String, Nbt)>, report: &mut Report) -> (ok: bool)
    ensures
        ok == fits(custom_name_spec(cv(old(c)@), tally(*old(report))).1),
        ok ==> (cv(final(c)@), tally(*final(report))) == custom_name_spec(
            cv(old(c)@),
            tally(*old(report)),
        ),
        same_other_counters(*old(report), *final(report)),
{
    let json = match get(c, "CustomName") {
        None => {
            return true;
        },
        Some(v) => text_to_json(v),
    };
    match json {
        Some(j) => insert(c, "CustomName", Nbt::String(j)),
        None => {
            remove(c, "CustomName");
            if report.dropped_data == u64::MAX {
                return false;
            }
            report.drop_with_warning(
                string_of("A custom name could not be converted to the pre-1.21.5 format."),
            );
        },
    }
    true
}

// ---------------------------------------------------------------- sign text

/// A list under `k` with its texts turned into JSON strings.
pub open spec fn json_list_at(c: Entries, k: Seq<char>) -> Entries {
    cmod(
        c,
        k,
        |v: NbtV|
            match v {
                NbtV::List(l) => NbtV::List(json_list(l)),
                _ => v,
            },
    )
}

/// One sign side with its `messages` and `filtered_messages` turned into JSON strings.
pub open spec fn sign_side_json(c: Entries, side: Seq<char>) -> Entries {
    cmod(
        c,
        side,
        |v: NbtV|
            match v {
                NbtV::Compound(t) => NbtV::Compound(
                    json_list_at(json_list_at(t, "messages"@), "filtered_messages"@),
                ),
                _ => v,
            },
    )
}

/// Both sign sides with their texts turned into JSON strings.
pub open spec fn sign_text_spec(c: Entries) -> Entries {
    sign_side_json(sign_side_json(c, "front_text"@), "back_text"@)
}

/// Turns the list under `k` into JSON strings (see [`json_list_at`]).
pub fn json_list_under(c: &mut Vec<(String, Nbt)>, k: &str)
    ensures
        cv(final(c)@) == json_list_at(cv(old(c)@), k@),
{
    let ghost before = c@;
    match take(c, k) {
        Some((i, v)) => {
            let w = match v {
                Nbt::List(mut l) => {
                    json_list_in_place(&mut l);
                    Nbt::List(l)
                },
                other => other,
            };
            restore(c, i, w, Ghost(before), Ghost(k@));
        },
        None => {},
    }
}

fn sign_side(c: &mut Vec<(String, Nbt)>, side: &str)
    ensures
        cv(final(c)@) == sign_side_json(cv(old(c)@), side@),
{
    let ghost before = c@;
    match take(c, side) {
        Some((i, v)) => {
            let w = match v {
                Nbt::Compound(mut t) => {
                    json_list_under(&mut t, "messages");
                    json_list_under(&mut t, "filtered_messages");
                    Nbt::Compound(t)
                },
                other => other,
            };
            restore(c, i, w, Ghost(before), Ghost(side@));
        },
        None => {},
    }
}

/// Turns sign texts into JSON strings (see [`sign_text_spec`]).
pub fn normalize_sign_text(c: &mut Vec<(String, Nbt)>)
    ensures
        cv(final(c)@) == sign_text_spec(cv(old(c)@)),
{
    sign_side(c, "front_text");
    sign_side(c, "back_text");
}

// ---------------------------------------------------------------- respawn

/// The three coordinates of a position array, stored under three keys.
pub open spec fn put_xyz(c: Entries, p: Seq<i32>, x: Seq<char>, y: Seq<char>, z: Seq<char>) -> Entries {
    if p.len() == 3 {
        cins(cins(cins(c, x, NbtV::Int(p[0])), y, NbtV::Int(p[1])), z, NbtV::Int(p[2]))
    } else {
        c
    }
}

/// A player's `respawn` compound (with `pos` and `dimension`) turned into
/// `SpawnX/Y/Z`, `SpawnDimension`, `SpawnAngle` (yaw, zero when missing) and
/// `SpawnForced`.
pub open spec fn respawn_spec(c: Entries) -> Entries {
    match cget(c, "respawn"@) {
        Some(NbtV::Compound(r0)) => if !has_key(r0, "pos"@) || !has_key(r0, "dimension"@) {
            c
        } else {
            let c1 = crem(c, "respawn"@);
            let c2 = match cget(r0, "pos"@) {
                Some(NbtV::IntArray(p)) => put_xyz(c1, p, "SpawnX"@, "SpawnY"@, "SpawnZ"@),
                _ => c1,
            };
            let r1 = crem(r0, "pos"@);
            let c3 = match cget(r1, "dimension"@) {
                Some(NbtV::String(d)) => cins(c2, "SpawnDimension"@, NbtV::String(d)),
                _ => c2,
            };
            let r2 = crem(r1, "dimension"@);
            let yaw: u32 = match cget(r2, "yaw"@) {
                Some(NbtV::Float(y)) => y,
                _ => 0,
            };
            let c4 = cins(c3, "SpawnAngle"@, NbtV::Float(yaw));
            let r3 = crem(r2, "yaw"@);
            let forced: i8 = if cget(r3, "forced"@) == Some(NbtV::Byte(1)) {
                1
            } else {
                0
            };
            cins(c4, "SpawnForced"@, NbtV::Byte(forced))
        },
        _ => c,
    }
}

/// Stores the coordinates of a position array (see [`put_xyz`]).
pub fn insert_xyz(c: &mut Vec<(String, Nbt)>, p: &Vec<i32>, x: &str, y: &str, z: &str)
    ensures
        cv(final(c)@) == put_xyz(cv(old(c)@), p@, x@, y@, z@),
{
    if p.len() == 3 {
        insert(c, x, Nbt::Int(p[0]));
        insert(c, y, Nbt::Int(p[1]));
        insert(c, z, Nbt::Int(p[2]));
    }
}

/// Converts `respawn` (see [`respawn_spec`]).
pub fn convert_respawn(c: &mut Vec<(String, Nbt)>)
    ensures
        cv(final(c)@) == respawn_spec(cv(old(c)@)),
{
    match get(c, "respawn") {
        Some(Nbt::Compound(r)) => {
            if !contains_key(r, "pos") || !contains_key(r, "dimension") {
                return ;
            }
        },
        _ => {
            return ;
        },
    }
    match remove(c, "respawn") {
        Some(Nbt::Compound(mut r)) => {
            match remove(&mut r, "pos") {
                Some(Nbt::IntArray(p)) => insert_xyz(c, &p, "SpawnX", "SpawnY", "SpawnZ"),
                _ => {},
            }
            match remove(&mut r, "dimension") {
                Some(Nbt::String(d)) => insert(c, "SpawnDimension", Nbt::String(d)),
                _ => {},
            }
            let yaw: u32 = match remove(&mut r, "yaw") {
                Some(Nbt::Float(y)) => y,
                _ => 0,
            };
            insert(c, "SpawnAngle", Nbt::Float(yaw));
            let forced: i8 = match remove(&mut r, "forced") {
                Some(Nbt::Byte(b)) => if b == 1 {
                    1
                } else {
                    0
                },
                _ => 0,
            };
            insert(c, "SpawnForced", Nbt::Byte(forced));
        },
        _ => {},
    }
}

// ---------------------------------------------------------------- hanging entities

/// Whether the compound's `id` names a hanging entity.
pub open spec fn is_hanging(c: Entries) -> bool {
    match cget(c, "id"@) {
        Some(NbtV::String(id)) => is_hanging_entity_id(id),
        _ => false,
    }
}

/// A hanging entity's `block_pos` turned into `TileX/Y/Z`; a `block_pos` that is no
/// integer array is removed.
pub open spec fn hanging_spec(c: Entries) -> Entries {
    if !is_hanging(c) {
        c
    } else {
        match cget(c, "block_pos"@) {
            None => c,
            Some(NbtV::IntArray(p)) => put_xyz(crem(c, "block_pos"@), p, "TileX"@, "TileY"@, "TileZ"@),
            Some(_) => crem(c, "block_pos"@),
        }
    }
}

/// Converts a hanging entity's position (see [`hanging_spec`]).
pub fn convert_hanging_entity(c: &mut Vec<(String, Nbt)>)
    ensures
        cv(final(c)@) == hanging_spec(cv(old(c)@)),
{
    let hanging = match get(c, "id") {
        Some(Nbt::String(id)) => hanging_entity_id(id.as_str()),
        _ => false,
    };
    if !hanging {
        return ;
    }
    match remove(c, "block_pos") {
        Some(Nbt::IntArray(p)) => insert_xyz(c, &p, "TileX", "TileY", "TileZ"),
        _ => {},
    }
}

// ---------------------------------------------------------------- furnaces

/// The value under `from` moved to the key `to`.
pub open spec fn rename_key(c: Entries, from: Seq<char>, to: Seq<char>) -> Entries {
    match cget(c, from) {
        Some(v) => cins(crem(c, from), to, v),
        None => c,
    }
}

/// Moves the value under `from` to `to` (see [`rename_key`]).
pub fn rename(c: &mut Vec<(String, Nbt)>, from: &str, to: &str)
    ensures
        cv(final(c)@) == rename_key(cv(old(c)@), from@, to@),
{
    match remove(c, from) {
        Some(v) => insert(c, to, v),
        None => {},
    }
}

/// Furnace timers renamed (`BurnTime`, `CookTime`, `CookTimeTotal`) and
/// `lit_total_time` removed, for compounds that have one of the new timers.
pub open spec fn furnace_spec(c: Entries) -> Entries {
    if !has_key(c, "lit_time_remaining"@) && !has_key(c, "cooking_time_spent"@) {
        c
    } else {
        crem(
            rename_key(
                rename_key(
                    rename_key(c, "lit_time_remaining"@, "BurnTime"@),
                    "cooking_time_spent"@,
                    "CookTime"@,
                ),
                "cooking_total_time"@,
                "CookTimeTotal"@,
            ),
            "lit_total_time"@,
        )
    }
}

/// Renames furnace timers (see [`furnace_spec`]).
pub fn rename_furnace_fields(c: &mut Vec<(String, Nbt)>)
    ensures
        cv(final(c)@) == furnace_spec(cv(old(c)@)),
{
    if !contains_key(c, "lit_time_remaining") && !contains_key(c, "cooking_time_spent") {
        return ;
    }
    rename(c, "lit_time_remaining", "BurnTime");
    rename(c, "cooking_time_spent", "CookTime");
    rename(c, "cooking_total_time", "CookTimeTotal");
    remove(c, "lit_total_time");
}

// ---------------------------------------------------------------- paintings

/// The warning for a painting variant that older versions lack.
pub open spec fn painting_warning(name: Seq<char>) -> Seq<char> {
    "Painting variant '"@ + name
        + "' does not exist before 1.19; the painting will fall back to the default artwork."@
}

/// A painting's `facing` renamed `Facing` and its `variant` renamed `Motive`
/// (a non-string variant is removed; an unknown one is kept with a warning).
pub open spec fn painting_spec(c: Entries, t: Tally) -> (Entries, Tally) {
    if cget(c, "id"@) != Some(NbtV::String("minecraft:painting"@)) {
        (c, t)
    } else {
        let c1 = rename_key(c, "facing"@, "Facing"@);
        match cget(c1, "variant"@) {
            None => (c1, t),
            Some(NbtV::String(name)) => (
                cins(crem(c1, "variant"@), "Motive"@, NbtV::String(name)),
                if is_legacy_painting(name) {
                    t
                } else {
                    td(t, painting_warning(name))
                },
            ),
            Some(_) => (crem(c1, "variant"@), t),
        }
    }
}

/// Converts a painting (see [`painting_spec`]).
pub fn convert_painting(c: &mut Vec<(String, Nbt)>, report: &mut Report)
    requires
        fits(painting_spec(cv(old(c)@), tally(*old(report))).1),
    ensures
        (cv(final(c)@), tally(*final(report))) == painting_spec(cv(old(c)@), tally(*old(report))),
        same_other_counters(*old(report), *final(report)),
{
    let ok = convert_painting_exec(c, report);
}

/// Converts a painting; false, part-way, exactly where the report's counters would overflow.
pub(crate) fn convert_painting_exec(c: &mut Vec<(String, Nbt)>, report: &mut Report) -> (ok: bool)
    ensures
        ok == fits(painting_spec(cv(old(c)@), tally(*old(report))).1),
        ok ==> (cv(final(c)@), tally(*final(report))) == painting_spec(cv(old(c)@), tally(*old(report))),
        same_other_counters(*old(report), *final(report)),
{
    let is_painting = match get(c, "id") {
        Some(Nbt::String(id)) => str_eq(id.as_str(), "minecraft:painting"),
        _ => false,
    };
    if !is_painting {
        return true;
    }
    rename(c, "facing", "Facing");
    match remove(c, "variant") {
        Some(Nbt::String(name)) => {
            if !legacy_painting(name.as_str()) {
                if report.dropped_data == u64::MAX {
                    return false;
                }
                report.drop_with_warning(
                    concat3(
                        "Painting variant '",
                        name.as_str(),
                        "' does not exist before 1.19; the painting will fall back to the default artwork.",
                    ),
                );
            }
            insert(c, "Motive", Nbt::String(name));
        },
        _ => {},
    }
    true
}

// ---------------------------------------------------------------- status effects

/// A byte under a key, or a default.
pub open spec fn byte_or(v: Option<NbtV>, default: i8) -> i8 {
    match v {
        Some(NbtV::Byte(b)) => b,
        _ => default,
    }
}

/// An integer clamped to 0..=127 as a byte.
pub open spec fn clamp_byte(v: i32) -> i8 {
    if v < 0 {
        0
    } else if v > 127 {
        127
    } else {
        v as i8
    }
}

/// The legacy compound of a modern status effect, without its id.
pub open spec fn legacy_effect(e1: Entries, n: i8) -> Entries {
    let amplifier: i8 = match cget(e1, "amplifier"@) {
        Some(NbtV::Byte(a)) => a,
        Some(NbtV::Int(a)) => clamp_byte(a),
        _ => 0,
    };
    let e2 = crem(e1, "amplifier"@);
    let duration: i32 = match cget(e2, "duration"@) {
        Some(NbtV::Int(d)) => d,
        _ => 0,
    };
    let e3 = crem(e2, "duration"@);
    let ambient = byte_or(cget(e3, "ambient"@), 0);
    let e4 = crem(e3, "ambient"@);
    let particles = byte_or(cget(e4, "show_particles"@), 1);
    let e5 = crem(e4, "show_particles"@);
    let icon = byte_or(cget(e5, "show_icon"@), particles);
    let l0: Entries = Seq::empty();
    let l1 = cins(l0, "Id"@, NbtV::Byte(n));
    let l2 = cins(l1, "Amplifier"@, NbtV::Byte(amplifier));
    let l3 = cins(l2, "Duration"@, NbtV::Int(duration));
    let l4 = cins(l3, "Ambient"@, NbtV::Byte(ambient));
    let l5 = cins(l4, "ShowParticles"@, NbtV::Byte(particles));
    cins(l5, "ShowIcon"@, NbtV::Byte(icon))
}

/// The warning for a status effect that older versions lack.
pub open spec fn effect_warning(id: Seq<char>) -> Seq<char> {
    "Status effect '"@ + id + "' has no numeric id before 1.20.2 and was dropped."@
}

/// One status effect in the legacy form, if it has a known string id.
pub open spec fn effect_entry(v: NbtV, t: Tally) -> (Option<NbtV>, Tally) {
    match v {
        NbtV::Compound(e0) => match cget(e0, "id"@) {
            Some(NbtV::String(id)) => match effect_number(id) {
                Some(n) => (Some(NbtV::Compound(legacy_effect(crem(e0, "id"@), n))), t),
                None => (None, td(t, effect_warning(id))),
            },
            _ => (None, t),
        },
        _ => (None, t),
    }
}

/// The legacy forms of a list of status effects, in order.
pub open spec fn effects_fold(l: Seq<NbtV>, t: Tally) -> (Seq<NbtV>, Tally)
    decreases l.len(),
{
    if l.len() == 0 {
        (Seq::empty(), t)
    } else {
        let (acc, t1) = effects_fold(l.drop_last(), t);
        let (o, t2) = effect_entry(l.last(), t1);
        (
            match o {
                Some(x) => acc.push(x),
                None => acc,
            },
            t2,
        )
    }
}

/// `active_effects` replaced by `ActiveEffects` with numeric ids (omitted when no
/// effect is left).
pub open spec fn effects_spec(c: Entries, t: Tally) -> (Entries, Tally) {
    match cget(c, "active_effects"@) {
        None => (c, t),
        Some(NbtV::List(l)) => {
            let c1 = crem(c, "active_effects"@);
            let (conv, t1) = effects_fold(l, t);
            (
                if conv.len() > 0 {
                    cins(c1, "ActiveEffects"@, NbtV::List(conv))
                } else {
                    c1
                },
                t1,
            )
        },
        Some(_) => (crem(c, "active_effects"@), t),
    }
}

pub proof fn lemma_effects_fold_grows(l: Seq<NbtV>, t: Tally)
    ensures
        effects_fold(l, t).1.dropped >= t.dropped,
        effects_fold(l, t).1.items == t.items,
    decreases l.len(),
{
    if l.len() > 0 {
        lemma_effects_fold_grows(l.drop_last(), t);
    }
}

proof fn lemma_effects_fold_prefix(l: Seq<NbtV>, t: Tally, k: int)
    requires
        0 <= k <= l.len(),
    ensures
        effects_fold(l.take(k), t).1.dropped <= effects_fold(l, t).1.dropped,
    decreases l.len(),
{
    if k < l.len() {
        let d = l.drop_last();
        assert(d.take(k) =~= l.take(k));
        lemma_effects_fold_prefix(d, t, k);
        let (acc, t1) = effects_fold(d, t);
        assert(effects_fold(l, t).1.dropped >= t1.dropped);
    } else {
        assert(l.take(k) =~= l);
    }
}

fn byte_of(v: Option<Nbt>, default: i8) -> (r: i8)
    ensures
        r == byte_or(
            match v {
                Some(x) => Some(nv(x)),
                None => None,
            },
            default,
        ),
{
    match v {
        Some(Nbt::Byte(b)) => b,
        _ => default,
    }
}

fn legacy_effect_exec(e: &mut Vec<(String, Nbt)>, n: i8) -> (r: Vec<(String, Nbt)>)
    ensures
        cv(r@) == legacy_effect(cv(old(e)@), n),
{
    let amplifier: i8 = match remove(e, "amplifier") {
        Some(Nbt::Byte(a)) => a,
        Some(Nbt::Int(a)) => if a < 0 {
            0
        } else if a > 127 {
            127
        } else {
            a as i8
        },
        _ => 0,
    };
    let duration: i32 = match remove(e, "duration") {
        Some(Nbt::Int(d)) => d,
        _ => 0,
    };
    let ambient = byte_of(remove(e, "ambient"), 0);
    let particles = byte_of(remove(e, "show_particles"), 1);
    let icon = byte_of(remove(e, "show_icon"), particles);
    let mut l: Vec<(String, Nbt)> = Vec::new();
    proof {
        lemma_cv_empty();
    }
    insert(&mut l, "Id", Nbt::Byte(n));
    insert(&mut l, "Amplifier", Nbt::Byte(amplifier));
    insert(&mut l, "Duration", Nbt::Int(duration));
    insert(&mut l, "Ambient", Nbt::Byte(ambient));
    insert(&mut l, "ShowParticles", Nbt::Byte(particles));
    insert(&mut l, "ShowIcon", Nbt::Byte(icon));
    l
}

/// Converts status effects (see [`effects_spec`]).
pub fn convert_active_effects(c: &mut Vec<(String, Nbt)>, report: &mut Report)
    requires
        fits(effects_spec(cv(old(c)@), tally(*old(report))).1),
    ensures
        (cv(final(c)@), tally(*final(report))) == effects_spec(cv(old(c)@), tally(*old(report))),
        same_other_counters(*old(report), *final(report)),
{
    let ok = convert_active_effects_exec(c, report);
}

/// Converts status effects; false, part-way, exactly where the report's counters would overflow.
pub(crate) fn convert_active_effects_exec(c: &mut Vec<(String, Nbt)>, report: &mut Report) -> (ok: bool)
    ensures
        ok == fits(effects_spec(cv(old(c)@), tally(*old(report))).1),
        ok ==> (cv(final(c)@), tally(*final(report))) == effects_spec(cv(old(c)@), tally(*old(report))),
        same_other_counters(*old(report), *final(report)),
{
    let mut effects = match remove(c, "active_effects") {
        Some(Nbt::List(l)) => l,
        _ => {
            return true;
        },
    };
    let ghost orig = lv(effects@);
    let ghost t0 = tally(*old(report));
    let ghost r0 = *old(report);
    let mut converted: Vec<Nbt> = Vec::new();
    proof {
        lemma_lv_empty();
        lemma_effects_fold_grows(orig, t0);
        assert forall|k: int| 0 <= k <= orig.len() implies effects_fold(orig.take(k), t0).1.dropped <= effects_fold(orig, t0).1.dropped by {
            lemma_effects_fold_prefix(orig, t0, k);
        }
    }
    let n = effects.len();
    let mut i: usize = 0;
    while i < n
        invariant
            n == effects@.len() == orig.len(),
            i <= n,
            forall|j: int| i <= j < n ==> #[trigger] nv(effects@[j]) == orig[j],
            (lv(converted@), tally(*report)) == effects_fold(orig.take(i as int), t0),
            same_other_counters(r0, *report),
            r0 == *old(report),
            t0 == tally(*old(report)),
            effects_spec(cv(old(c)@), t0).1 == effects_fold(orig, t0).1,
            forall|k: int|
                0 <= k <= n ==> effects_fold(orig.take(k), t0).1.dropped <= effects_fold(
                    orig,
                    t0,
                ).1.dropped,
        decreases n - i,
    {
        assert(orig.take(i + 1).drop_last() =~= orig.take(i as int));
        assert(orig.take(i + 1).last() == orig[i as int]);
        let e = list_take(&mut effects, i);
        assert(nv(e) == orig[i as int]);
        proof {
            assert(effects_fold(orig.take(i + 1), t0).1.dropped <= effects_fold(orig, t0).1.dropped);
        }
        match e {
            Nbt::Compound(mut e0) => {
                match remove(&mut e0, "id") {
                    Some(Nbt::String(id)) => {
                        match effect_numeric_id(id.as_str()) {
                            Some(num) => {
                                let legacy = legacy_effect_exec(&mut e0, num);
                                proof {
                                    lemma_lv_push(converted@, Nbt::Compound(legacy));
                                }
                                converted.push(Nbt::Compound(legacy));
                            },
                            None => {
                                if report.dropped_data == u64::MAX {
                                    proof {
                                        let (_, ta) = effects_fold(orig.take(i as int), t0);
                                        assert(effect_entry(orig[i as int], ta).1 == td(ta, effect_warning(id@)));
                                        assert(effects_fold(orig.take(i + 1), t0).1.dropped == ta.dropped + 1);
                                    }
                                    return false;
                                }
                                report.drop_with_warning(
                                    concat3(
                                        "Status effect '",
                                        id.as_str(),
                                        "' has no numeric id before 1.20.2 and was dropped.",
                                    ),
                                );
                            },
                        }
                    },
                    _ => {},
                }
            },
            _ => {},
        }
        i = i + 1;
    }
    assert(orig.take(n as int) =~= orig);
    if converted.len() > 0 {
        insert(c, "ActiveEffects", Nbt::List(converted));
    }
    true
}

// ---------------------------------------------------------------- attributes

/// The attribute id used before 1.21 (DataVersion 4080): ids without a `.` get the
/// `minecraft:player.`, `minecraft:zombie.` or `minecraft:generic.` prefix.
pub open spec fn legacy_attribute(id: Seq<char>) -> Seq<char> {
    let name = if "minecraft:"@.len() <= id.len() && id.subrange(0, "minecraft:"@.len() as int)
        == "minecraft:"@ {
        id.subrange("minecraft:"@.len() as int, id.len() as int)
    } else {
        id
    };
    if name.contains('.') {
        id
    } else if is_player_attribute(name) {
        "minecraft:player."@ + name
    } else if name == "spawn_reinforcements"@ {
        "minecraft:zombie."@ + name
    } else {
        "minecraft:generic."@ + name
    }
}

/// Computes [`legacy_attribute`].
pub fn legacy_attribute_id(id: &str) -> (r: String)
    ensures
        r@ == legacy_attribute(id@),
{
    let name = strip_prefix_or_self(id, "minecraft:");
    if contains_char(name.as_str(), '.') {
        string_of(id)
    } else if player_attribute(name.as_str()) {
        concat2("minecraft:player.", name.as_str())
    } else if str_eq(name.as_str(), "spawn_reinforcements") {
        concat2("minecraft:zombie.", name.as_str())
    } else {
        concat2("minecraft:generic.", name.as_str())
    }
}

/// Whether a list entry looks like an attribute (a compound with `base` or `id`).
pub open spec fn attribute_like(v: NbtV) -> bool {
    match v {
        NbtV::Compound(a) => has_key(a, "base"@) || has_key(a, "id"@),
        _ => false,
    }
}

/// One attribute in the target's form, and whether modifiers were dropped from it.
pub open spec fn attribute_entry(v: NbtV, dv: i32) -> (NbtV, bool) {
    match v {
        NbtV::Compound(a) => {
            let a1 = match cget(a, "id"@) {
                Some(NbtV::String(id)) => cins(a, "id"@, NbtV::String(legacy_attribute(id))),
                _ => a,
            };
            if dv < 3837 {
                let a2 = rename_key(a1, "id"@, "Name"@);
                let a3 = rename_key(a2, "base"@, "Base"@);
                (NbtV::Compound(crem(a3, "modifiers"@)), has_key(a3, "modifiers"@))
            } else {
                (NbtV::Compound(a1), false)
            }
        },
        _ => (v, false),
    }
}

/// The warning for dropped attribute modifiers.
pub open spec fn modifiers_warning() -> Seq<char> {
    "Attribute modifiers were dropped (incompatible format before 1.20.5)."@
}

/// For targets before DataVersion 4080, an `attributes` list (of attribute-like
/// entries) gets legacy ids; before 3837 its entries use `Name`/`Base`, lose
/// modifiers (with one warning) and the list is renamed `Attributes`.
pub open spec fn attributes_spec(c: Entries, dv: i32, t: Tally) -> (Entries, Tally) {
    if dv >= 4080 {
        (c, t)
    } else {
        match cget(c, "attributes"@) {
            Some(NbtV::List(l)) => if !(forall|i: int| 0 <= i < l.len() ==> attribute_like(#[trigger] l[i])) {
                (c, t)
            } else {
                let l2 = Seq::new(l.len(), |i: int| attribute_entry(l[i], dv).0);
                let dropped = exists|i: int| 0 <= i < l.len() && #[trigger] attribute_entry(l[i], dv).1;
                let key = if dv < 3837 {
                    "Attributes"@
                } else {
                    "attributes"@
                };
                (
                    cins(crem(c, "attributes"@), key, NbtV::List(l2)),
                    if dropped {
                        td(t, modifiers_warning())
                    } else {
                        t
                    },
                )
            },
            _ => (c, t),
        }
    }
}

fn attribute_entry_exec(v: Nbt, dv: i32) -> (r: (Nbt, bool))
    ensures
        (nv(r.0), r.1) == attribute_entry(nv(v), dv),
{
    match v {
        Nbt::Compound(mut a) => {
            let legacy = match get(&a, "id") {
                Some(Nbt::String(id)) => Some(legacy_attribute_id(id.as_str())),
                _ => None,
            };
            match legacy {
                Some(l) => insert(&mut a, "id", Nbt::String(l)),
                None => {},
            }
            if dv < 3837 {
                rename(&mut a, "id", "Name");
                rename(&mut a, "base", "Base");
                let dropped = remove(&mut a, "modifiers").is_some();
                (Nbt::Compound(a), dropped)
            } else {
                (Nbt::Compound(a), false)
            }
        },
        other => (other, false),
    }
}

/// Converts attributes (see [`attributes_spec`]).
pub fn downgrade_attributes(c: &mut Vec<(String, Nbt)>, dv: i32, report: &mut Report)
    requires
        fits(attributes_spec(cv(old(c)@), dv, tally(*old(report))).1),
    ensures
        (cv(final(c)@), tally(*final(report))) == attributes_spec(
            cv(old(c)@),
            dv,
            tally(*old(report)),
        ),
        same_other_counters(*old(report), *final(report)),
{
    let ok = downgrade_attributes_exec(c, dv, report);
}

/// Converts attributes; false, part-way, exactly where the report's counters would overflow.
pub(crate) fn downgrade_attributes_exec(c: &mut Vec<(String, Nbt)>, dv: i32, report: &mut Report) -> (ok: bool)
    ensures
        ok == fits(attributes_spec(cv(old(c)@), dv, tally(*old(report))).1),
        ok ==> (cv(final(c)@), tally(*final(report))) == attributes_spec(
            cv(old(c)@),
            dv,
            tally(*old(report)),
        ),
        same_other_counters(*old(report), *final(report)),
{
    if dv >= 4080 {
        return true;
    }
    match get(c, "attributes") {
        Some(Nbt::List(l)) => {
            proof {
                lemma_lv(l@);
            }
            let n = l.len();
            let mut i: usize = 0;
            while i < n
                invariant
                    n == l@.len(),
                    i <= n,
                    lv(l@).len() == n,
                    forall|j: int| 0 <= j < n ==> #[trigger] lv(l@)[j] == nv(l@[j]),
                    cget(cv(c@), "attributes"@) == Some(NbtV::List(lv(l@))),
                    c@ == old(c)@,
                    *report == *old(report),
                    dv < 4080,
                    forall|j: int| 0 <= j < i ==> attribute_like(#[trigger] lv(l@)[j]),
                decreases n - i,
            {
                let like = match &l[i] {
                    Nbt::Compound(a) => contains_key(a, "base") || contains_key(a, "id"),
                    _ => false,
                };
                if !like {
                    assert(!attribute_like(lv(l@)[i as int]));
                    assert(!(forall|j: int| 0 <= j < lv(l@).len() ==> attribute_like(#[trigger] lv(l@)[j])));
                    return true;
                }
                i = i + 1;
            }
        },
        _ => {
            return true;
        },
    }
    let mut entries = match remove(c, "attributes") {
        Some(Nbt::List(l)) => l,
        _ => {
            return true;
        },
    };
    let ghost orig = lv(entries@);
    let n = entries.len();
    let mut dropped = false;
    let mut i: usize = 0;
    while i < n
        invariant
            n == entries@.len() == orig.len(),
            i <= n,
            forall|j: int| 0 <= j < i ==> #[trigger] nv(entries@[j]) == attribute_entry(orig[j], dv).0,
            forall|j: int| i <= j < n ==> #[trigger] nv(entries@[j]) == orig[j],
            dropped == exists|j: int| 0 <= j < i && #[trigger] attribute_entry(orig[j], dv).1,
        decreases n - i,
    {
        let e = list_take(&mut entries, i);
        let (converted, d) = attribute_entry_exec(e, dv);
        entries.set(i, converted);
        proof {
            if d {
                assert(attribute_entry(orig[i as int], dv).1);
            }
        }
        dropped = dropped || d;
        i = i + 1;
    }
    proof {
        lemma_lv(entries@);
    }
    assert(lv(entries@) =~= Seq::new(orig.len(), |j: int| attribute_entry(orig[j], dv).0));
    assert(dropped == exists|j: int| 0 <= j < orig.len() && #[trigger] attribute_entry(orig[j], dv).1);
    if dropped {
        if report.dropped_data == u64::MAX {
            return false;
        }
        report.drop_with_warning(string_of("Attribute modifiers were dropped (incompatible format before 1.20.5)."));
    }
    if dv < 3837 {
        insert(c, "Attributes", Nbt::List(entries));
    } else {
        insert(c, "attributes", Nbt::List(entries));
    }
    true
}

// ---------------------------------------------------------------- signs

/// The JSON of an empty text.
pub open spec fn empty_text_json() -> Seq<char> {
    "{\"text\":\"\"}"@
}

/// Sign line `i` as a JSON string.
pub open spec fn sign_line(ms: Seq<NbtV>, i: int) -> NbtV {
    NbtV::String(
        if i < ms.len() {
            match text_json(ms[i]) {
                Some(j) => j,
                None => empty_text_json(),
            }
        } else {
            empty_text_json()
        },
    )
}

/// The front side of a sign stored as `Text1`..`Text4`, `Color` and `GlowingText`.
pub open spec fn front_fields(c: Entries, front: Entries) -> Entries {
    let ca = match cget(front, "messages"@) {
        Some(NbtV::List(ms)) => cins(
            cins(cins(cins(c, "Text1"@, sign_line(ms, 0)), "Text2"@, sign_line(ms, 1)), "Text3"@, sign_line(ms, 2)),
            "Text4"@,
            sign_line(ms, 3),
        ),
        _ => c,
    };
    let cb = match cget(front, "color"@) {
        Some(NbtV::String(col)) => cins(ca, "Color"@, NbtV::String(col)),
        _ => ca,
    };
    match cget(front, "has_glowing_text"@) {
        Some(NbtV::Byte(g)) => cins(cb, "GlowingText"@, NbtV::Byte(g)),
        _ => cb,
    }
}

/// The warning for a dropped sign back side.
pub open spec fn back_text_warning() -> Seq<char> {
    "Sign back-side text was dropped (not supported before 1.20)."@
}

/// A modern sign turned into the pre-1.20 form: the front side becomes top-level
/// fields, the back side is dropped with a warning and `is_waxed` is removed.
pub open spec fn sign_spec(c: Entries, t: Tally) -> (Entries, Tally) {
    let c1 = match cget(c, "front_text"@) {
        Some(NbtV::Compound(front)) => front_fields(crem(c, "front_text"@), front),
        Some(_) => crem(c, "front_text"@),
        None => c,
    };
    let (c2, t2) = if has_key(c1, "back_text"@) {
        (crem(c1, "back_text"@), td(t, back_text_warning()))
    } else {
        (c1, t)
    };
    (crem(c2, "is_waxed"@), t2)
}

/// Line `i` of a sign's front messages as JSON text: the message's JSON text, or the
/// empty text where there is none.
pub open spec fn message_line_json(ms: Seq<NbtV>, i: int) -> NbtV {
    NbtV::String(
        if 0 <= i < ms.len() && text_json(ms[i]) is Some {
            text_json(ms[i])->0
        } else {
            "{\"text\":\"\"}"@
        },
    )
}

/// A sign keeps its lines in place: `Text1` to `Text4` hold the JSON texts of the
/// front side's messages 0 to 3.
pub proof fn lemma_sign_lines_in_order(c: Entries, front: Entries, ms: Seq<NbtV>, t: Tally)
    requires
        cget(c, "front_text"@) == Some(NbtV::Compound(front)),
        cget(front, "messages"@) == Some(NbtV::List(ms)),
    ensures
        cget(sign_spec(c, t).0, "Text1"@) == Some(message_line_json(ms, 0)),
        cget(sign_spec(c, t).0, "Text2"@) == Some(message_line_json(ms, 1)),
        cget(sign_spec(c, t).0, "Text3"@) == Some(message_line_json(ms, 2)),
        cget(sign_spec(c, t).0, "Text4"@) == Some(message_line_json(ms, 3)),
{
    reveal_strlit("Text1");
    reveal_strlit("Text2");
    reveal_strlit("Text3");
    reveal_strlit("Text4");
    reveal_strlit("Color");
    reveal_strlit("GlowingText");
    reveal_strlit("back_text");
    reveal_strlit("is_waxed");
    assert("Text1"@[4] == '1' && "Text2"@[4] == '2' && "Text3"@[4] == '3' && "Text4"@[4] == '4');
    assert("Text1"@[0] == 'T' && "Text2"@[0] == 'T' && "Text3"@[0] == 'T' && "Text4"@[0] == 'T');
    assert("Color"@[0] == 'C' && "GlowingText"@[0] == 'G' && "back_text"@[0] == 'b' && "is_waxed"@[0] == 'i');
    let keys = seq!["Text1"@, "Text2"@, "Text3"@, "Text4"@];
    let c0 = crem(c, "front_text"@);
    let l1 = sign_line(ms, 0);
    let l2 = sign_line(ms, 1);
    let l3 = sign_line(ms, 2);
    let l4 = sign_line(ms, 3);
    let a1 = cins(c0, "Text1"@, l1);
    let a2 = cins(a1, "Text2"@, l2);
    let a3 = cins(a2, "Text3"@, l3);
    let ca = cins(a3, "Text4"@, l4);
    assert(sign_line(ms, 0) == message_line_json(ms, 0));
    assert(sign_line(ms, 1) == message_line_json(ms, 1));
    assert(sign_line(ms, 2) == message_line_json(ms, 2));
    assert(sign_line(ms, 3) == message_line_json(ms, 3));
    lemma_cget_cins_same(c0, "Text1"@, l1);
    lemma_cget_cins_other(a1, "Text2"@, l2, "Text1"@);
    lemma_cget_cins_other(a2, "Text3"@, l3, "Text1"@);
    lemma_cget_cins_other(a3, "Text4"@, l4, "Text1"@);
    lemma_cget_cins_same(a1, "Text2"@, l2);
    lemma_cget_cins_other(a2, "Text3"@, l3, "Text2"@);
    lemma_cget_cins_other(a3, "Text4"@, l4, "Text2"@);
    lemma_cget_cins_same(a2, "Text3"@, l3);
    lemma_cget_cins_other(a3, "Text4"@, l4, "Text3"@);
    lemma_cget_cins_same(a3, "Text4"@, l4);
    let cb = match cget(front, "color"@) {
        Some(NbtV::String(col)) => cins(ca, "Color"@, NbtV::String(col)),
        _ => ca,
    };
    let cc = match cget(front, "has_glowing_text"@) {
        Some(NbtV::Byte(g)) => cins(cb, "GlowingText"@, NbtV::Byte(g)),
        _ => cb,
    };
    let c2 = if has_key(cc, "back_text"@) {
        crem(cc, "back_text"@)
    } else {
        cc
    };
    let c3 = crem(c2, "is_waxed"@);
    assert forall|i: int| 0 <= i < 4 implies cget(c3, #[trigger] keys[i]) == cget(ca, keys[i]) by {
        let k = keys[i];
        match cget(front, "color"@) {
            Some(NbtV::String(col)) => lemma_cget_cins_other(ca, "Color"@, NbtV::String(col), k),
            _ => {},
        }
        match cget(front, "has_glowing_text"@) {
            Some(NbtV::Byte(g)) => lemma_cget_cins_other(cb, "GlowingText"@, NbtV::Byte(g), k),
            _ => {},
        }
        lemma_cget_crem_other(cc, "back_text"@, k);
        lemma_cget_crem_other(c2, "is_waxed"@, k);
    }
    assert(front_fields(c0, front) == cc);
    assert(sign_spec(c, t).0 == c3);
    assert(cget(c3, keys[0]) == cget(ca, keys[0]));
    assert(cget(c3, keys[1]) == cget(ca, keys[1]));
    assert(cget(c3, keys[2]) == cget(ca, keys[2]));
    assert(cget(c3, keys[3]) == cget(ca, keys[3]));
}

fn sign_line_exec(ms: &Vec<Nbt>, i: usize) -> (r: Nbt)
    ensures
        nv(r) == sign_line(lv(ms@), i as int),
{
    let empty = "{\"text\":\"\"}";
    let line = if i < ms.len() {
        match text_to_json(&ms[i]) {
            Some(j) => j,
            None => string_of(empty),
        }
    } else {
        string_of(empty)
    };
    Nbt::String(line)
}

/// Converts a sign (see [`sign_spec`]).
pub fn convert_sign(c: &mut Vec<(String, Nbt)>, report: &mut Report)
    requires
        fits(sign_spec(cv(old(c)@), tally(*old(report))).1),
    ensures
        (cv(final(c)@), tally(*final(report))) == sign_spec(cv(old(c)@), tally(*old(report))),
        same_other_counters(*old(report), *final(report)),
{
    let ok = convert_sign_exec(c, report);
}

/// Converts a sign; false, part-way, exactly where the report's counters would overflow.
pub(crate) fn convert_sign_exec(c: &mut Vec<(String, Nbt)>, report: &mut Report) -> (ok: bool)
    ensures
        ok == fits(sign_spec(cv(old(c)@), tally(*old(report))).1),
        ok ==> (cv(final(c)@), tally(*final(report))) == sign_spec(cv(old(c)@), tally(*old(report))),
        same_other_counters(*old(report), *final(report)),
{
    match remove(c, "front_text") {
        Some(Nbt::Compound(front)) => {
            match get(&front, "messages") {
                Some(Nbt::List(ms)) => {
                    insert(c, "Text1", sign_line_exec(ms, 0));
                    insert(c, "Text2", sign_line_exec(ms, 1));
                    insert(c, "Text3", sign_line_exec(ms, 2));
                    insert(c, "Text4", sign_line_exec(ms, 3));
                },
                _ => {},
            }
            match get(&front, "color") {
                Some(Nbt::String(col)) => insert(c, "Color", Nbt::String(col.clone())),
                _ => {},
            }
            match get(&front, "has_glowing_text") {
                Some(Nbt::Byte(g)) => insert(c, "GlowingText", Nbt::Byte(*g)),
                _ => {},
            }
        },
        _ => {},
    }
    if remove(c, "back_text").is_some() {
        if report.dropped_data == u64::MAX {
            return false;
        }
        report.drop_with_warning(string_of("Sign back-side text was dropped (not supported before 1.20)."));
    }
    remove(c, "is_waxed");
    true
}

// ---------------------------------------------------------------- component texts

/// A written-book page with its text as a JSON string.
pub open spec fn page_json(p: NbtV) -> NbtV {
    match p {
        NbtV::Compound(e) => match cget(e, "raw"@) {
            Some(r) => match text_json(r) {
                Some(j) => NbtV::Compound(cins(e, "raw"@, NbtV::String(j))),
                None => p,
            },
            None => p,
        },
        _ => json_or_same(p),
    }
}

/// The text under `k` as a JSON string, where it has one.
pub open spec fn json_at(c: Entries, k: Seq<char>) -> Entries {
    match cget(c, k) {
        Some(v) => match text_json(v) {
            Some(j) => cins(c, k, NbtV::String(j)),
            None => c,
        },
        None => c,
    }
}

/// Item components with their names, lore and book pages as JSON strings.
pub open spec fn components_json(comp: Entries) -> Entries {
    let a = json_at(json_at(comp, "minecraft:custom_name"@), "minecraft:item_name"@);
    let b = json_list_at(a, "minecraft:lore"@);
    cmod(
        b,
        "minecraft:written_book_content"@,
        |v: NbtV|
            match v {
                NbtV::Compound(book) => NbtV::Compound(
                    cmod(
                        book,
                        "pages"@,
                        |p: NbtV|
                            match p {
                                NbtV::List(pages) => NbtV::List(
                                    Seq::new(pages.len(), |i: int| page_json(pages[i])),
                                ),
                                _ => p,
                            },
                    ),
                ),
                _ => v,
            },
    )
}

/// `components` with its texts as JSON strings (targets 1.20.5 to 1.21.4).
pub open spec fn component_text_spec(c: Entries) -> Entries {
    match cget(c, "components"@) {
        Some(NbtV::Compound(comp)) => cins(c, "components"@, NbtV::Compound(components_json(comp))),
        _ => c,
    }
}

fn json_under(c: &mut Vec<(String, Nbt)>, k: &str)
    ensures
        cv(final(c)@) == json_at(cv(old(c)@), k@),
{
    let json = match get(c, k) {
        Some(v) => text_to_json(v),
        None => None,
    };
    match json {
        Some(j) => insert(c, k, Nbt::String(j)),
        None => {},
    }
}

fn page_json_exec(p: Nbt) -> (r: Nbt)
    ensures
        nv(r) == page_json(nv(p)),
{
    match p {
        Nbt::Compound(mut e) => {
            json_under(&mut e, "raw");
            Nbt::Compound(e)
        },
        other => match text_to_json(&other) {
            Some(j) => Nbt::String(j),
            None => other,
        },
    }
}

fn pages_json(pages: &mut Vec<Nbt>)
    ensures
        lv(final(pages)@) == Seq::new(lv(old(pages)@).len(), |i: int| page_json(lv(old(pages)@)[i])),
{
    let ghost orig = lv(pages@);
    let n = pages.len();
    let mut i: usize = 0;
    while i < n
        invariant
            n == pages@.len() == orig.len(),
            i <= n,
            orig == lv(old(pages)@),
            forall|j: int| 0 <= j < i ==> #[trigger] nv(pages@[j]) == page_json(orig[j]),
            forall|j: int| i <= j < n ==> #[trigger] nv(pages@[j]) == orig[j],
        decreases n - i,
    {
        let p = list_take(pages, i);
        let q = page_json_exec(p);
        pages.set(i, q);
        i = i + 1;
    }
    proof {
        lemma_lv(pages@);
    }
    assert(lv(pages@) =~= Seq::new(orig.len(), |j: int| page_json(orig[j])));
}

fn book_json(book: &mut Vec<(String, Nbt)>)
    ensures
        cv(final(book)@) == cmod(
            cv(old(book)@),
            "pages"@,
            |p: NbtV|
                match p {
                    NbtV::List(pages) => NbtV::List(Seq::new(pages.len(), |i: int| page_json(pages[i]))),
                    _ => p,
                },
        ),
{
    let ghost before = book@;
    match take(book, "pages") {
        Some((i, v)) => {
            let w = match v {
                Nbt::List(mut pages) => {
                    pages_json(&mut pages);
                    Nbt::List(pages)
                },
                other => other,
            };
            restore(book, i, w, Ghost(before), Ghost("pages"@));
        },
        None => {},
    }
}

fn components_json_exec(comp: &mut Vec<(String, Nbt)>)
    ensures
        cv(final(comp)@) == components_json(cv(old(comp)@)),
{
    json_under(comp, "minecraft:custom_name");
    json_under(comp, "minecraft:item_name");
    json_list_under(comp, "minecraft:lore");
    let ghost before = comp@;
    match take(comp, "minecraft:written_book_content") {
        Some((i, v)) => {
            let w = match v {
                Nbt::Compound(mut book) => {
                    book_json(&mut book);
                    Nbt::Compound(book)
                },
                other => other,
            };
            restore(comp, i, w, Ghost(before), Ghost("minecraft:written_book_content"@));
        },
        None => {},
    }
}

/// Turns component texts into JSON strings (see [`component_text_spec`]).
pub fn normalize_component_text(c: &mut Vec<(String, Nbt)>)
    ensures
        cv(final(c)@) == component_text_spec(cv(old(c)@)),
{
    let ghost before = c@;
    match take(c, "components") {
        Some((i, Nbt::Compound(mut comp))) => {
            components_json_exec(&mut comp);
            restore(c, i, Nbt::Compound(comp), Ghost(before), Ghost("components"@));
        },
        Some((i, other)) => {
            restore(c, i, other, Ghost(before), Ghost("components"@));
            proof {
                lemma_cins_same(cv(before), "components"@);
            }
        },
        None => {},
    }
}

/// Painting variants that exist before 1.19.
pub open spec fn is_legacy_painting(name: Seq<char>) -> bool {
    ||| name == "minecraft:kebab"@
    ||| name == "minecraft:aztec"@
    ||| name == "minecraft:alban"@
    ||| name == "minecraft:aztec2"@
    ||| name == "minecraft:bomb"@
    ||| name == "minecraft:plant"@
    ||| name == "minecraft:wasteland"@
    ||| name == "minecraft:pool"@
    ||| name == "minecraft:courbet"@
    ||| name == "minecraft:sea"@
    ||| name == "minecraft:sunset"@
    ||| name == "minecraft:creebet"@
    ||| name == "minecraft:wanderer"@
    ||| name == "minecraft:graham"@
    ||| name == "minecraft:match"@
    ||| name == "minecraft:bust"@
    ||| name == "minecraft:stage"@
    ||| name == "minecraft:void"@
    ||| name == "minecraft:skull_and_roses"@
    ||| name == "minecraft:wither"@
    ||| name == "minecraft:fighters"@
    ||| name == "minecraft:pointer"@
    ||| name == "minecraft:pigscene"@
    ||| name == "minecraft:burning_skull"@
    ||| name == "minecraft:skeleton"@
    ||| name == "minecraft:donkey_kong"@
}

/// Whether a painting variant exists before 1.19.
pub(crate) fn legacy_painting(name: &str) -> (r: bool)
    ensures
        r == is_legacy_painting(name@),
{
    str_eq(name, "minecraft:kebab")
        || str_eq(name, "minecraft:aztec")
        || str_eq(name, "minecraft:alban")
        || str_eq(name, "minecraft:aztec2")
        || str_eq(name, "minecraft:bomb")
        || str_eq(name, "minecraft:plant")
        || str_eq(name, "minecraft:wasteland")
        || str_eq(name, "minecraft:pool")
        || str_eq(name, "minecraft:courbet")
        || str_eq(name, "minecraft:sea")
        || str_eq(name, "minecraft:sunset")
        || str_eq(name, "minecraft:creebet")
        || str_eq(name, "minecraft:wanderer")
        || str_eq(name, "minecraft:graham")
        || str_eq(name, "minecraft:match")
        || str_eq(name, "minecraft:bust")
        || str_eq(name, "minecraft:stage")
        || str_eq(name, "minecraft:void")
        || str_eq(name, "minecraft:skull_and_roses")
        || str_eq(name, "minecraft:wither")
        || str_eq(name, "minecraft:fighters")
        || str_eq(name, "minecraft:pointer")
        || str_eq(name, "minecraft:pigscene")
        || str_eq(name, "minecraft:burning_skull")
        || str_eq(name, "minecraft:skeleton")
        || str_eq(name, "minecraft:donkey_kong")
}

/// The numeric id of a status effect before 1.20.2.
pub open spec fn effect_number(name: Seq<char>) -> Option<i8> {
    if name == "minecraft:speed"@ {
        Some(1i8)
    } else if name == "minecraft:slowness"@ {
        Some(2i8)
    } else if name == "minecraft:haste"@ {
        Some(3i8)
    } else if name == "minecraft:mining_fatigue"@ {
        Some(4i8)
    } else if name == "minecraft:strength"@ {
        Some(5i8)
    } else if name == "minecraft:instant_health"@ {
        Some(6i8)
    } else if name == "minecraft:instant_damage"@ {
        Some(7i8)
    } else if name == "minecraft:jump_boost"@ {
        Some(8i8)
    } else if name == "minecraft:nausea"@ {
        Some(9i8)
    } else if name == "minecraft:regeneration"@ {
        Some(10i8)
    } else if name == "minecraft:resistance"@ {
        Some(11i8)
    } else if name == "minecraft:fire_resistance"@ {
        Some(12i8)
    } else if name == "minecraft:water_breathing"@ {
        Some(13i8)
    } else if name == "minecraft:invisibility"@ {
        Some(14i8)
    } else if name == "minecraft:blindness"@ {
        Some(15i8)
    } else if name == "minecraft:night_vision"@ {
        Some(16i8)
    } else if name == "minecraft:hunger"@ {
        Some(17i8)
    } else if name == "minecraft:weakness"@ {
        Some(18i8)
    } else if name == "minecraft:poison"@ {
        Some(19i8)
    } else if name == "minecraft:wither"@ {
        Some(20i8)
    } else if name == "minecraft:health_boost"@ {
        Some(21i8)
    } else if name == "minecraft:absorption"@ {
        Some(22i8)
    } else if name == "minecraft:saturation"@ {
        Some(23i8)
    } else if name == "minecraft:glowing"@ {
        Some(24i8)
    } else if name == "minecraft:levitation"@ {
        Some(25i8)
    } else if name == "minecraft:luck"@ {
        Some(26i8)
    } else if name == "minecraft:unluck"@ {
        Some(27i8)
    } else if name == "minecraft:slow_falling"@ {
        Some(28i8)
    } else if name == "minecraft:conduit_power"@ {
        Some(29i8)
    } else if name == "minecraft:dolphins_grace"@ {
        Some(30i8)
    } else if name == "minecraft:bad_omen"@ {
        Some(31i8)
    } else if name == "minecraft:hero_of_the_village"@ {
        Some(32i8)
    } else if name == "minecraft:darkness"@ {
        Some(33i8)
    } else {
        None
    }
}

/// The numeric id of a status effect before 1.20.2.
pub(crate) fn effect_numeric_id(name: &str) -> (r: Option<i8>)
    ensures
        r == effect_number(name@),
{
    if str_eq(name, "minecraft:speed") {
        Some(1i8)
    } else if str_eq(name, "minecraft:slowness") {
        Some(2i8)
    } else if str_eq(name, "minecraft:haste") {
        Some(3i8)
    } else if str_eq(name, "minecraft:mining_fatigue") {
        Some(4i8)
    } else if str_eq(name, "minecraft:strength") {
        Some(5i8)
    } else if str_eq(name, "minecraft:instant_health") {
        Some(6i8)
    } else if str_eq(name, "minecraft:instant_damage") {
        Some(7i8)
    } else if str_eq(name, "minecraft:jump_boost") {
        Some(8i8)
    } else if str_eq(name, "minecraft:nausea") {
        Some(9i8)
    } else if str_eq(name, "minecraft:regeneration") {
        Some(10i8)
    } else if str_eq(name, "minecraft:resistance") {
        Some(11i8)
    } else if str_eq(name, "minecraft:fire_resistance") {
        Some(12i8)
    } else if str_eq(name, "minecraft:water_breathing") {
        Some(13i8)
    } else if str_eq(name, "minecraft:invisibility") {
        Some(14i8)
    } else if str_eq(name, "minecraft:blindness") {
        Some(15i8)
    } else if str_eq(name, "minecraft:night_vision") {
        Some(16i8)
    } else if str_eq(name, "minecraft:hunger") {
        Some(17i8)
    } else if str_eq(name, "minecraft:weakness") {
        Some(18i8)
    } else if str_eq(name, "minecraft:poison") {
        Some(19i8)
    } else if str_eq(name, "minecraft:wither") {
        Some(20i8)
    } else if str_eq(name, "minecraft:health_boost") {
        Some(21i8)
    } else if str_eq(name, "minecraft:absorption") {
        Some(22i8)
    } else if str_eq(name, "minecraft:saturation") {
        Some(23i8)
    } else if str_eq(name, "minecraft:glowing") {
        Some(24i8)
    } else if str_eq(name, "minecraft:levitation") {
        Some(25i8)
    } else if str_eq(name, "minecraft:luck") {
        Some(26i8)
    } else if str_eq(name, "minecraft:unluck") {
        Some(27i8)
    } else if str_eq(name, "minecraft:slow_falling") {
        Some(28i8)
    } else if str_eq(name, "minecraft:conduit_power") {
        Some(29i8)
    } else if str_eq(name, "minecraft:dolphins_grace") {
        Some(30i8)
    } else if str_eq(name, "minecraft:bad_omen") {
        Some(31i8)
    } else if str_eq(name, "minecraft:hero_of_the_village") {
        Some(32i8)
    } else if str_eq(name, "minecraft:darkness") {
        Some(33i8)
    } else {
        None
    }
}

/// Attributes that were prefixed `player.` before 1.20.5.
pub open spec fn is_player_attribute(name: Seq<char>) -> bool {
    ||| name == "block_break_speed"@
    ||| name == "block_interaction_range"@
    ||| name == "entity_interaction_range"@
    ||| name == "mining_efficiency"@
    ||| name == "sneaking_speed"@
    ||| name == "submerged_mining_speed"@
    ||| name == "sweeping_damage_ratio"@
}

/// Whether an attribute was prefixed `player.`.
pub(crate) fn player_attribute(name: &str) -> (r: bool)
    ensures
        r == is_player_attribute(name@),
{
    str_eq(name, "block_break_speed")
        || str_eq(name, "block_interaction_range")
        || str_eq(name, "entity_interaction_range")
        || str_eq(name, "mining_efficiency")
        || str_eq(name, "sneaking_speed")
        || str_eq(name, "submerged_mining_speed")
        || str_eq(name, "sweeping_damage_ratio")
}

/// Entities that hang on a block.
pub open spec fn is_hanging_entity_id(name: Seq<char>) -> bool {
    ||| name == "minecraft:item_frame"@
    ||| name == "minecraft:glow_item_frame"@
    ||| name == "minecraft:painting"@
    ||| name == "minecraft:leash_knot"@
}

/// Whether an entity id hangs on a block.
pub(crate) fn hanging_entity_id(name: &str) -> (r: bool)
    ensures
        r == is_hanging_entity_id(name@),
{
    str_eq(name, "minecraft:item_frame")
        || str_eq(name, "minecraft:glow_item_frame")
        || str_eq(name, "minecraft:painting")
        || str_eq(name, "minecraft:leash_knot")
}

} // verus!
