//! Downgrading NBT compounds to older data versions: the rules of [`entity`] and
//! [`item`] are applied to a compound and then, depth first and in entry order, to
//! every compound nested in it.
//!
//! Each rule is gated by the data version at which the newer format appeared: a rule
//! runs when the target data version is below that version.
pub mod entity;
pub mod item;

use vstd::prelude::*;
use crate::nbt::{unique_keys, 
    cget, crem, cv, entry_take, has_key, list_take, lv, nv, contains_key, get, remove, Entries,
    Nbt, NbtV, lemma_cv, lemma_lv,
};
use crate::report::{fits, same_other_counters, tally, td, Report, Tally};
use crate::text::string_of;
use crate::downgrade::entity::{attributes_spec, component_text_spec, convert_active_effects_exec, convert_hanging_entity, convert_painting_exec, convert_respawn, convert_sign_exec, custom_name_spec, downgrade_attributes_exec, effects_spec, fall_distance_spec, furnace_spec, hanging_spec, lemma_effects_fold_grows, normalize_component_text, normalize_custom_name_exec, normalize_sign_text, painting_spec, rename_fall_distance, rename_furnace_fields, respawn_spec, sign_spec, sign_text_spec, split_equipment, split_equipment_spec};
use crate::downgrade::item::{item_exec, item_spec, lemma_item_grows, tle};

verus! {

/// Paintings use `facing`/`variant` from this data version on.
pub const DV_PAINTING_FIELDS: i32 = 3105;

/// Signs have front and back text from this data version on.
pub const DV_SIGN_TEXT: i32 = 3463;

/// Status effects use the long field names from this data version on.
pub const DV_EFFECT_FIELDS: i32 = 3578;

/// Item stacks carry components from this data version on.
pub const DV_ITEM_COMPONENTS: i32 = 3837;

/// Attribute ids lose their `generic.`/`player.` prefixes from this data version on.
pub const DV_ATTRIBUTE_IDS: i32 = 4080;

/// Furnaces use the long field names from this data version on.
pub const DV_FURNACE_FIELDS: i32 = 4189;

/// Entities keep their gear in one `equipment` compound from this data version on.
pub const DV_EQUIPMENT: i32 = 4325;

/// The warning for component data dropped from a compound that is no item stack.
pub open spec fn components_warning() -> Seq<char> {
    "Some component data was dropped (no equivalent before 1.20.5)."@
}

/// A compound is an item stack when it has a string `id` and an int `count`.
pub open spec fn is_item_stack(c: Entries) -> bool {
    &&& cget(c, "id"@) matches Some(NbtV::String(_))
    &&& cget(c, "count"@) matches Some(NbtV::Int(_))
}

/// The rules applied before the item-stack conversion: for targets before the
/// equipment format, equipment, fall distance, custom name, sign text, respawn point
/// and hanging entities; then furnaces, paintings and, for targets with item
/// components but before the equipment format, component texts.
pub open spec fn before_items(c: Entries, dv: i32, t: Tally) -> (Entries, Tally) {
    let (c1, t1) = if dv < DV_EQUIPMENT {
        let (n, tn) = custom_name_spec(fall_distance_spec(split_equipment_spec(c)), t);
        (hanging_spec(respawn_spec(sign_text_spec(n))), tn)
    } else {
        (c, t)
    };
    let c2 = if dv < DV_FURNACE_FIELDS {
        furnace_spec(c1)
    } else {
        c1
    };
    let (c3, t3) = if dv < DV_PAINTING_FIELDS {
        painting_spec(c2, t1)
    } else {
        (c2, t1)
    };
    (
        if DV_ITEM_COMPONENTS <= dv < DV_EQUIPMENT {
            component_text_spec(c3)
        } else {
            c3
        },
        t3,
    )
}

/// The rules applied after the item-stack conversion: attributes; status effects and
/// signs for older targets; and, for targets before item components, the removal (with
/// a warning) of `components` from a compound that is no item stack.
pub open spec fn after_items(c: Entries, dv: i32, t: Tally) -> (Entries, Tally) {
    let (c1, t1) = attributes_spec(c, dv, t);
    let (c2, t2) = if dv < DV_EFFECT_FIELDS {
        effects_spec(c1, t1)
    } else {
        (c1, t1)
    };
    let (c3, t3) = if dv < DV_SIGN_TEXT && has_key(c2, "front_text"@) {
        sign_spec(c2, t2)
    } else {
        (c2, t2)
    };
    if dv < DV_ITEM_COMPONENTS && !is_item_stack(c3) && has_key(c3, "components"@) {
        (crem(c3, "components"@), td(t3, components_warning()))
    } else {
        (c3, t3)
    }
}

/// All rules applied to one compound (not to what it contains).
#[verifier::opaque]
pub open spec fn rules_spec(c: Entries, dv: i32, t: Tally, fuel: nat) -> Option<(Entries, Tally)> {
    let (c1, t1) = before_items(c, dv, t);
    let r = if dv < DV_ITEM_COMPONENTS && is_item_stack(c1) {
        item_spec(c1, dv, t1, fuel)
    } else {
        Some((c1, t1))
    };
    match r {
        None => None,
        Some((c2, t2)) => Some(after_items(c2, dv, t2)),
    }
}

/// The rules applied to a compound and then to the values of its entries, in order.
pub open spec fn apply_spec(c: Entries, dv: i32, t: Tally, fuel: nat) -> Option<(Entries, Tally)>
    decreases fuel, 2nat, 0nat,
{
    match rules_spec(c, dv, t, fuel) {
        None => None,
        Some((c1, t1)) => walk_entries(c1, dv, t1, fuel),
    }
}

/// The values of the entries walked, first to last.
pub open spec fn walk_entries(es: Entries, dv: i32, t: Tally, fuel: nat) -> Option<(Entries, Tally)>
    decreases fuel, 1nat, es.len(),
{
    if es.len() == 0 {
        Some((es, t))
    } else {
        match walk_value(es[0].1, dv, t, fuel) {
            None => None,
            Some((v, t1)) => match walk_entries(es.subrange(1, es.len() as int), dv, t1, fuel) {
                None => None,
                Some((rest, t2)) => Some((seq![(es[0].0, v)] + rest, t2)),
            },
        }
    }
}

/// The elements of a list walked, first to last.
pub open spec fn walk_list(l: Seq<NbtV>, dv: i32, t: Tally, fuel: nat) -> Option<(Seq<NbtV>, Tally)>
    decreases fuel, 1nat, l.len(),
{
    if l.len() == 0 {
        Some((l, t))
    } else {
        match walk_value(l[0], dv, t, fuel) {
            None => None,
            Some((v, t1)) => match walk_list(l.subrange(1, l.len() as int), dv, t1, fuel) {
                None => None,
                Some((rest, t2)) => Some((seq![v] + rest, t2)),
            },
        }
    }
}

/// A compound gets the rules and is walked; a list is walked; other values stay. With
/// no depth budget left, the value stays as it is.
pub open spec fn walk_value(v: NbtV, dv: i32, t: Tally, fuel: nat) -> Option<(NbtV, Tally)>
    decreases fuel, 0nat, 0nat,
{
    if fuel == 0 {
        Some((v, t))
    } else {
        match v {
            NbtV::Compound(m) => match apply_spec(m, dv, t, (fuel - 1) as nat) {
                None => None,
                Some((m1, t1)) => Some((NbtV::Compound(m1), t1)),
            },
            NbtV::List(l) => match walk_list(l, dv, t, (fuel - 1) as nat) {
                None => None,
                Some((l1, t1)) => Some((NbtV::List(l1), t1)),
            },
            _ => Some((v, t)),
        }
    }
}

/// The depth budget that [`downgrade_compound`] grants: one level per nested compound
/// or list, far more than any value in memory can nest.
pub open spec fn depth_budget() -> nat {
    u64::MAX as nat
}

/// What [`downgrade_compound`] makes of a compound and a report's tally: nothing
/// changes for targets at or after the equipment format; otherwise the rules are
/// applied to the compound and everything nested in it. No result where an item stack
/// has none (see [`item_spec`]).
pub open spec fn downgrade_spec(c: Entries, dv: i32, t: Tally) -> Option<(Entries, Tally)> {
    if dv >= DV_EQUIPMENT {
        Some((c, t))
    } else {
        apply_spec(c, dv, t, depth_budget())
    }
}


/// The result of walking the rest of a sequence, behind an already walked prefix.
pub open spec fn prepend<A>(p: Seq<A>, r: Option<(Seq<A>, Tally)>) -> Option<(Seq<A>, Tally)> {
    match r {
        Some((s, t)) => Some((p + s, t)),
        None => None,
    }
}

// ---------------------------------------------------------------- the counters only grow

proof fn lemma_before_grows(c: Entries, dv: i32, t: Tally)
    ensures
        tle(t, before_items(c, dv, t).1),
        dv < DV_EQUIPMENT ==> tle(
            custom_name_spec(fall_distance_spec(split_equipment_spec(c)), t).1,
            before_items(c, dv, t).1,
        ),
{
}

proof fn lemma_after_grows(c: Entries, dv: i32, t: Tally)
    ensures
        tle(t, after_items(c, dv, t).1),
        tle(attributes_spec(c, dv, t).1, after_items(c, dv, t).1),
        dv < DV_EFFECT_FIELDS ==> tle(
            effects_spec(attributes_spec(c, dv, t).0, attributes_spec(c, dv, t).1).1,
            after_items(c, dv, t).1,
        ),
{
    let (c1, t1) = attributes_spec(c, dv, t);
    match cget(c1, "active_effects"@) {
        Some(NbtV::List(l)) => {
            lemma_effects_fold_grows(l, t1);
        },
        _ => {},
    }
}

proof fn lemma_rules_grows(c: Entries, dv: i32, t: Tally, fuel: nat)
    ensures
        rules_spec(c, dv, t, fuel) matches Some((_, t2)) ==> tle(t, t2),
{
    reveal(rules_spec);
    lemma_before_grows(c, dv, t);
    let (c1, t1) = before_items(c, dv, t);
    lemma_item_grows(c1, dv, t1, fuel);
    let r = if dv < DV_ITEM_COMPONENTS && is_item_stack(c1) {
        item_spec(c1, dv, t1, fuel)
    } else {
        Some((c1, t1))
    };
    match r {
        Some((c2, t2)) => lemma_after_grows(c2, dv, t2),
        None => {},
    }
}

/// Downgrading a compound never lowers the report's counters.
pub proof fn lemma_apply_grows(c: Entries, dv: i32, t: Tally, fuel: nat)
    ensures
        apply_spec(c, dv, t, fuel) matches Some((_, t2)) ==> tle(t, t2),
    decreases fuel, 2nat, 0nat,
{
    lemma_rules_grows(c, dv, t, fuel);
    match rules_spec(c, dv, t, fuel) {
        Some((c1, t1)) => lemma_entries_grows(c1, dv, t1, fuel),
        None => {},
    }
}

proof fn lemma_entries_grows(es: Entries, dv: i32, t: Tally, fuel: nat)
    ensures
        walk_entries(es, dv, t, fuel) matches Some((_, t2)) ==> tle(t, t2),
    decreases fuel, 1nat, es.len(),
{
    if es.len() > 0 {
        lemma_value_grows(es[0].1, dv, t, fuel);
        match walk_value(es[0].1, dv, t, fuel) {
            Some((_, t1)) => lemma_entries_grows(es.subrange(1, es.len() as int), dv, t1, fuel),
            None => {},
        }
    }
}

proof fn lemma_list_grows(l: Seq<NbtV>, dv: i32, t: Tally, fuel: nat)
    ensures
        walk_list(l, dv, t, fuel) matches Some((_, t2)) ==> tle(t, t2),
    decreases fuel, 1nat, l.len(),
{
    if l.len() > 0 {
        lemma_value_grows(l[0], dv, t, fuel);
        match walk_value(l[0], dv, t, fuel) {
            Some((_, t1)) => lemma_list_grows(l.subrange(1, l.len() as int), dv, t1, fuel),
            None => {},
        }
    }
}

proof fn lemma_value_grows(v: NbtV, dv: i32, t: Tally, fuel: nat)
    ensures
        walk_value(v, dv, t, fuel) matches Some((_, t2)) ==> tle(t, t2),
    decreases fuel, 0nat, 0nat,
{
    if fuel > 0 {
        match v {
            NbtV::Compound(m) => lemma_apply_grows(m, dv, t, (fuel - 1) as nat),
            NbtV::List(l) => lemma_list_grows(l, dv, t, (fuel - 1) as nat),
            _ => {},
        }
    }
}

// ---------------------------------------------------------------- executable

fn is_item_stack_exec(c: &Vec<(String, Nbt)>) -> (r: bool)
    ensures
        r == is_item_stack(cv(c@)),
{
    let has_id = match get(c, "id") {
        Some(Nbt::String(_)) => true,
        _ => false,
    };
    let has_count = match get(c, "count") {
        Some(Nbt::Int(_)) => true,
        _ => false,
    };
    has_id && has_count
}

fn before_items_exec(c: &mut Vec<(String, Nbt)>, dv: i32, report: &mut Report) -> (ok: bool)
    ensures
        ok == fits(before_items(cv(old(c)@), dv, tally(*old(report))).1),
        ok ==> (cv(final(c)@), tally(*final(report))) == before_items(cv(old(c)@), dv, tally(*old(report))),
        same_other_counters(*old(report), *final(report)),
{
    proof {
        lemma_before_grows(cv(c@), dv, tally(*report));
    }
    if dv < DV_EQUIPMENT {
        split_equipment(c);
        rename_fall_distance(c);
        if !normalize_custom_name_exec(c, report) {
            return false;
        }
        normalize_sign_text(c);
        convert_respawn(c);
        convert_hanging_entity(c);
    }
    if dv < DV_FURNACE_FIELDS {
        rename_furnace_fields(c);
    }
    if dv < DV_PAINTING_FIELDS {
        if !convert_painting_exec(c, report) {
            return false;
        }
    }
    if DV_ITEM_COMPONENTS <= dv && dv < DV_EQUIPMENT {
        normalize_component_text(c);
    }
    true
}

fn after_items_exec(c: &mut Vec<(String, Nbt)>, dv: i32, report: &mut Report) -> (ok: bool)
    ensures
        ok == fits(after_items(cv(old(c)@), dv, tally(*old(report))).1),
        ok ==> (cv(final(c)@), tally(*final(report))) == after_items(cv(old(c)@), dv, tally(*old(report))),
        same_other_counters(*old(report), *final(report)),
{
    proof {
        lemma_after_grows(cv(c@), dv, tally(*report));
    }
    if !downgrade_attributes_exec(c, dv, report) {
        return false;
    }
    if dv < DV_EFFECT_FIELDS {
        if !convert_active_effects_exec(c, report) {
            return false;
        }
    }
    if dv < DV_SIGN_TEXT && contains_key(c, "front_text") {
        if !convert_sign_exec(c, report) {
            return false;
        }
    }
    if dv < DV_ITEM_COMPONENTS && !is_item_stack_exec(c) {
        match remove(c, "components") {
            Some(_) => {
                if report.dropped_data == u64::MAX {
                    return false;
                }
                report.drop_with_warning(
                    string_of("Some component data was dropped (no equivalent before 1.20.5)."),
                );
            },
            None => {},
        }
    }
    true
}

fn apply_exec(c: &mut Vec<(String, Nbt)>, dv: i32, report: &mut Report, fuel: u64) -> (ok: bool)
    ensures
        ok == (apply_spec(cv(old(c)@), dv, tally(*old(report)), fuel as nat) matches Some((_, t2)) && fits(t2)),
        ok ==> apply_spec(cv(old(c)@), dv, tally(*old(report)), fuel as nat) == Some(
            (cv(final(c)@), tally(*final(report))),
        ),
        same_other_counters(*old(report), *final(report)),
    decreases fuel, 2nat, 0nat,
{
    proof {
        reveal(rules_spec);
        let t = tally(*report);
        let (c1, t1) = before_items(cv(c@), dv, t);
        lemma_item_grows(c1, dv, t1, fuel as nat);
        let r = if dv < DV_ITEM_COMPONENTS && is_item_stack(c1) {
            item_spec(c1, dv, t1, fuel as nat)
        } else {
            Some((c1, t1))
        };
        match r {
            Some((c2, t2)) => {
                lemma_after_grows(c2, dv, t2);
                let (c3, t3) = after_items(c2, dv, t2);
                lemma_entries_grows(c3, dv, t3, fuel as nat);
            },
            None => {},
        }
    }
    if !before_items_exec(c, dv, report) {
        return false;
    }
    if dv < DV_ITEM_COMPONENTS && is_item_stack_exec(c) {
        if !item_exec(c, dv, report, fuel) {
            return false;
        }
    }
    if !after_items_exec(c, dv, report) {
        return false;
    }
    walk_entries_exec(c, dv, report, fuel)
}

fn walk_entries_exec(c: &mut Vec<(String, Nbt)>, dv: i32, report: &mut Report, fuel: u64) -> (ok: bool)
    ensures
        ok == (walk_entries(cv(old(c)@), dv, tally(*old(report)), fuel as nat) matches Some((_, t2)) && fits(t2)),
        ok ==> walk_entries(cv(old(c)@), dv, tally(*old(report)), fuel as nat) == Some(
            (cv(final(c)@), tally(*final(report))),
        ),
        same_other_counters(*old(report), *final(report)),
    decreases fuel, 1nat, 0nat,
{
    let ghost c0 = c@;
    let ghost orig = cv(c@);
    let ghost t0 = tally(*report);
    let ghost r0 = *report;
    let n = c.len();
    let mut out: Vec<(String, Nbt)> = Vec::new();
    let mut i: usize = 0;
    proof {
        lemma_cv(c0);
        assert(orig.subrange(0, n as int) =~= orig);
        assert(cv(out@) =~= Seq::<(Seq<char>, NbtV)>::empty());
        assert(cv(out@) + orig =~= orig);
    }
    while i < n
        invariant
            c0.len() == n,
            c0 == old(c)@,
            t0 == tally(*old(report)),
            r0 == *old(report),
            orig == cv(c0),
            orig.len() == n,
            c@.len() == n,
            i <= n,
            forall|j: int| i <= j < n ==> c@[j] == c0[j],
            walk_entries(orig, dv, t0, fuel as nat) == prepend(
                cv(out@),
                walk_entries(orig.subrange(i as int, n as int), dv, tally(*report), fuel as nat),
            ),
            same_other_counters(r0, *report),
        decreases n - i,
    {
        let ghost rest = orig.subrange(i as int, n as int);
        let ghost out0 = cv(out@);
        let (k, v) = entry_take(c, i);
        proof {
            lemma_cv(c0);
            assert(rest[0] == (k@, nv(v)));
            assert(rest.subrange(1, rest.len() as int) =~= orig.subrange(i + 1, n as int));
            match walk_value(nv(v), dv, tally(*report), fuel as nat) {
                Some((_, t1)) => lemma_entries_grows(orig.subrange(i + 1, n as int), dv, t1, fuel as nat),
                None => {},
            }
        }
        let v2 = match walk_value_exec(v, dv, report, fuel) {
            Some(v2) => v2,
            None => {
                return false;
            },
        };
        let ghost item = (k@, nv(v2));
        out.push((k, v2));
        proof {
            lemma_cv(out@);
            assert(cv(out@) =~= out0.push(item));
            match walk_entries(orig.subrange(i + 1, n as int), dv, tally(*report), fuel as nat) {
                Some((rest2, _)) => {
                    assert(out0 + (seq![item] + rest2) =~= out0.push(item) + rest2);
                },
                None => {},
            }
        }
        i = i + 1;
    }
    proof {
        assert(orig.subrange(n as int, n as int) =~= Seq::<(Seq<char>, NbtV)>::empty());
        assert(cv(out@) + Seq::<(Seq<char>, NbtV)>::empty() =~= cv(out@));
    }
    *c = out;
    true
}

fn walk_list_exec(l: &mut Vec<Nbt>, dv: i32, report: &mut Report, fuel: u64) -> (ok: bool)
    ensures
        ok == (walk_list(lv(old(l)@), dv, tally(*old(report)), fuel as nat) matches Some((_, t2)) && fits(t2)),
        ok ==> walk_list(lv(old(l)@), dv, tally(*old(report)), fuel as nat) == Some(
            (lv(final(l)@), tally(*final(report))),
        ),
        same_other_counters(*old(report), *final(report)),
    decreases fuel, 1nat, 0nat,
{
    let ghost l0 = l@;
    let ghost orig = lv(l@);
    let ghost t0 = tally(*report);
    let ghost r0 = *report;
    let n = l.len();
    let mut out: Vec<Nbt> = Vec::new();
    let mut i: usize = 0;
    proof {
        lemma_lv(l0);
        assert(orig.subrange(0, n as int) =~= orig);
        assert(lv(out@) =~= Seq::<NbtV>::empty());
        assert(lv(out@) + orig =~= orig);
    }
    while i < n
        invariant
            l0.len() == n,
            l0 == old(l)@,
            t0 == tally(*old(report)),
            r0 == *old(report),
            orig == lv(l0),
            orig.len() == n,
            l@.len() == n,
            i <= n,
            forall|j: int| i <= j < n ==> l@[j] == l0[j],
            walk_list(orig, dv, t0, fuel as nat) == prepend(
                lv(out@),
                walk_list(orig.subrange(i as int, n as int), dv, tally(*report), fuel as nat),
            ),
            same_other_counters(r0, *report),
        decreases n - i,
    {
        let ghost rest = orig.subrange(i as int, n as int);
        let ghost out0 = lv(out@);
        let v = list_take(l, i);
        proof {
            lemma_lv(l0);
            assert(rest[0] == nv(v));
            assert(rest.subrange(1, rest.len() as int) =~= orig.subrange(i + 1, n as int));
            match walk_value(nv(v), dv, tally(*report), fuel as nat) {
                Some((_, t1)) => lemma_list_grows(orig.subrange(i + 1, n as int), dv, t1, fuel as nat),
                None => {},
            }
        }
        let v2 = match walk_value_exec(v, dv, report, fuel) {
            Some(v2) => v2,
            None => {
                return false;
            },
        };
        out.push(v2);
        proof {
            lemma_lv(out@);
            assert(lv(out@) =~= out0.push(nv(v2)));
            match walk_list(orig.subrange(i + 1, n as int), dv, tally(*report), fuel as nat) {
                Some((rest2, _)) => {
                    assert(out0 + (seq![nv(v2)] + rest2) =~= out0.push(nv(v2)) + rest2);
                },
                None => {},
            }
        }
        i = i + 1;
    }
    proof {
        assert(orig.subrange(n as int, n as int) =~= Seq::<NbtV>::empty());
        assert(lv(out@) + Seq::<NbtV>::empty() =~= lv(out@));
    }
    *l = out;
    true
}

fn walk_value_exec(v: Nbt, dv: i32, report: &mut Report, fuel: u64) -> (r: Option<Nbt>)
    ensures
        r is Some == (walk_value(nv(v), dv, tally(*old(report)), fuel as nat) matches Some((_, t2)) && fits(t2)),
        r matches Some(w) ==> walk_value(nv(v), dv, tally(*old(report)), fuel as nat) == Some((nv(w), tally(*final(report)))),
        same_other_counters(*old(report), *final(report)),
    decreases fuel, 0nat, 0nat,
{
    if fuel == 0 {
        return Some(v);
    }
    match v {
        Nbt::Compound(m) => {
            let mut m = m;
            if apply_exec(&mut m, dv, report, fuel - 1) {
                Some(Nbt::Compound(m))
            } else {
                None
            }
        },
        Nbt::List(l) => {
            let mut l = l;
            if walk_list_exec(&mut l, dv, report, fuel - 1) {
                Some(Nbt::List(l))
            } else {
                None
            }
        },
        other => {
            assert(!(nv(other) is Compound) && !(nv(other) is List));
            Some(other)
        },
    }
}

/// Rewrites a compound (a chunk, an entity, a player, an item stack, ...) and
/// everything nested in it into the shapes that the target data version reads, and
/// records in the report what was converted, dropped or approximated (see
/// [`downgrade_spec`]).
pub fn downgrade_compound(map: &mut Vec<(String, Nbt)>, target_data_version: i32, report: &mut Report)
    requires
        downgrade_spec(cv(old(map)@), target_data_version, tally(*old(report))) matches Some((_, t2))
            && fits(t2),
    ensures
        downgrade_spec(cv(old(map)@), target_data_version, tally(*old(report))) == Some(
            (cv(final(map)@), tally(*final(report))),
        ),
        same_other_counters(*old(report), *final(report)),
{
    let ok = try_downgrade_compound(map, target_data_version, report);
}

/// Downgrades a compound as [`downgrade_compound`] does where that can be done, and
/// says whether it could: false exactly where [`downgrade_spec`] has no result (an
/// item whose `display` or `BlockEntityTag` record is no compound) or the report's
/// counters would overflow. The compound and the report are then left part-way.
pub fn try_downgrade_compound(map: &mut Vec<(String, Nbt)>, target_data_version: i32, report: &mut Report) -> (ok: bool)
    ensures
        ok == (downgrade_spec(cv(old(map)@), target_data_version, tally(*old(report))) matches Some((_, t2))
            && fits(t2)),
        ok ==> downgrade_spec(cv(old(map)@), target_data_version, tally(*old(report))) == Some(
            (cv(final(map)@), tally(*final(report))),
        ),
        same_other_counters(*old(report), *final(report)),
{
    if target_data_version >= DV_EQUIPMENT {
        return true;
    }
    apply_exec(map, target_data_version, report, u64::MAX)
}

/// Walking the values of a compound keeps its keys, in order.
proof fn lemma_walk_entries_keys(es: Entries, dv: i32, t: Tally, fuel: nat)
    ensures
        walk_entries(es, dv, t, fuel) matches Some((r, _)) ==> r.len() == es.len() && forall|i: int|
            0 <= i < es.len() ==> #[trigger] r[i].0 == es[i].0,
    decreases es.len(),
{
    if es.len() > 0 {
        match walk_value(es[0].1, dv, t, fuel) {
            Some((v, t1)) => {
                let rest = es.subrange(1, es.len() as int);
                lemma_walk_entries_keys(rest, dv, t1, fuel);
                match walk_entries(rest, dv, t1, fuel) {
                    Some((r2, _)) => {
                        let r = seq![(es[0].0, v)] + r2;
                        assert forall|i: int| 0 <= i < es.len() implies #[trigger] r[i].0 == es[i].0 by {
                            if i > 0 {
                                assert(r[i] == r2[i - 1]);
                                assert(rest[i - 1] == es[i]);
                            }
                        }
                    },
                    None => {},
                }
            },
            None => {},
        }
    }
}

/// A downgrade keeps a compound free of repeated keys.
pub proof fn lemma_downgrade_keeps_unique_keys(c: Entries, dv: i32, t: Tally)
    requires
        unique_keys(c),
    ensures
        downgrade_spec(c, dv, t) matches Some((c2, _)) ==> unique_keys(c2),
{
    broadcast use crate::nbt::lemma_cins_keeps_unique, crate::nbt::lemma_crem_keeps_unique;
    reveal(rules_spec);
    if dv < DV_EQUIPMENT {
        let fuel = depth_budget();
        let (c1, t1) = before_items(c, dv, t);
        assert(unique_keys(c1));
        let r = if dv < DV_ITEM_COMPONENTS && is_item_stack(c1) {
            item_spec(c1, dv, t1, fuel)
        } else {
            Some((c1, t1))
        };
        match r {
            Some((c2, t2)) => {
                assert(unique_keys(c2));
                let (c3, t3) = after_items(c2, dv, t2);
                assert(unique_keys(c3));
                lemma_walk_entries_keys(c3, dv, t3, fuel);
                match walk_entries(c3, dv, t3, fuel) {
                    Some((c4, _)) => {
                        assert forall|a: int, b: int| 0 <= a < b < c4.len() implies #[trigger] c4[a].0 != #[trigger] c4[b].0 by {
                            assert(c4[a].0 == c3[a].0);
                            assert(c4[b].0 == c3[b].0);
                        }
                    },
                    None => {},
                }
            },
            None => {},
        }
    }
}

/// Targets at or after the equipment format (1.21.5) need no downgrade: the compound
/// and the report stay as they are.
pub proof fn lemma_no_change_for_new_targets(c: Entries, dv: i32, t: Tally)
    requires
        dv >= DV_EQUIPMENT,
    ensures
        downgrade_spec(c, dv, t) == Some((c, t)),
{
}

/// A downgrade never lowers the report's counters of converted item stacks and dropped
/// data.
pub proof fn lemma_downgrade_grows(c: Entries, dv: i32, t: Tally)
    ensures
        downgrade_spec(c, dv, t) matches Some((_, t2)) ==> tle(t, t2),
{
    if dv < DV_EQUIPMENT {
        lemma_apply_grows(c, dv, t, depth_budget());
    }
}

} // verus!
