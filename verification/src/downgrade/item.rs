//! The item-stack rule: a 1.20.5+ item stack `{id, count, components}` becomes the
//! older `{id, Count, tag}` form, component by component, including the item stacks
//! nested in containers and crossbow projectiles.
//!
//! The rules recurse into nested item stacks with a depth budget; the budget that
//! [`crate::downgrade::downgrade_compound`] grants is far beyond any nesting that a
//! process could hold in memory, so it never runs out on real data.
use vstd::prelude::*;
use crate::nbt::{cget, cins, crem, cv, empty_entries, empty_list, get, has_key, insert, lemma_cv_drop_last, lemma_lv_drop_last, list_push, lv, nv, remove, restore, take, Entries, Nbt, NbtV};
use crate::report::{fits, same_other_counters, tally, td, ti, Report, Tally};
use crate::text::{concat2, concat3, str_eq, string_of};
use crate::downgrade::entity::{clamp_byte, text_json, text_to_json};

verus! {

/// The counters of `a` do not exceed those of `b`.
pub open spec fn tle(a: Tally, b: Tally) -> bool {
    a.dropped <= b.dropped && a.items <= b.items
}

// ---------------------------------------------------------------- small pieces

/// The entries of `es` stored one after another into `tag`.
pub open spec fn merge_into(tag: Entries, es: Entries) -> Entries
    decreases es.len(),
{
    if es.len() == 0 {
        tag
    } else {
        cins(merge_into(tag, es.drop_last()), es.last().0, es.last().1)
    }
}

/// `v` stored under `k` inside the compound `name` of `tag` (created empty when
/// missing); no result when `name` holds something else than a compound.
pub open spec fn sub_ins(tag: Entries, name: Seq<char>, k: Seq<char>, v: NbtV) -> Option<Entries> {
    match cget(tag, name) {
        None => Some(cins(tag, name, NbtV::Compound(cins(Seq::empty(), k, v)))),
        Some(NbtV::Compound(d)) => Some(cins(tag, name, NbtV::Compound(cins(d, k, v)))),
        Some(_) => None,
    }
}

/// The entries `es` merged into the compound `name` of `tag` (created empty when
/// missing); no result when `name` holds something else than a compound.
pub open spec fn sub_merge(tag: Entries, name: Seq<char>, es: Entries) -> Option<Entries> {
    match cget(tag, name) {
        None => Some(cins(tag, name, NbtV::Compound(merge_into(Seq::empty(), es)))),
        Some(NbtV::Compound(d)) => Some(cins(tag, name, NbtV::Compound(merge_into(d, es)))),
        Some(_) => None,
    }
}

/// The legacy level of an enchantment (a short), if the level is a number.
pub open spec fn level_of(v: NbtV) -> Option<i16> {
    match v {
        NbtV::Int(x) => Some(x as i16),
        NbtV::Short(x) => Some(x),
        NbtV::Byte(x) => Some(x as i16),
        _ => None,
    }
}

/// `{id, lvl}` entries for each enchantment with a numeric level, in order.
pub open spec fn enchant_list(levels: Entries) -> Seq<NbtV>
    decreases levels.len(),
{
    if levels.len() == 0 {
        Seq::empty()
    } else {
        let p = enchant_list(levels.drop_last());
        match level_of(levels.last().1) {
            Some(l) => p.push(
                NbtV::Compound(
                    cins(cins(Seq::empty(), "id"@, NbtV::String(levels.last().0)), "lvl"@, NbtV::Short(l)),
                ),
            ),
            None => p,
        }
    }
}

/// The legacy enchantment list of an enchantments component (a compound that may
/// wrap the levels in `levels`).
pub open spec fn enchantments_spec(v: NbtV) -> Option<NbtV> {
    match v {
        NbtV::Compound(m) => Some(
            NbtV::List(
                enchant_list(
                    match cget(m, "levels"@) {
                        Some(NbtV::Compound(l)) => l,
                        _ => m,
                    },
                ),
            ),
        ),
        _ => None,
    }
}

/// The JSON strings of the texts in a list that have one, in order.
pub open spec fn json_filter(l: Seq<NbtV>) -> Seq<NbtV>
    decreases l.len(),
{
    if l.len() == 0 {
        Seq::empty()
    } else {
        let p = json_filter(l.drop_last());
        match text_json(l.last()) {
            Some(j) => p.push(NbtV::String(j)),
            None => p,
        }
    }
}

/// The raw text of a book page (a compound's `raw`, or the page itself).
pub open spec fn page_raw(p: NbtV) -> Option<NbtV> {
    match p {
        NbtV::Compound(m) => cget(m, "raw"@),
        _ => Some(p),
    }
}

/// The string pages of a writable book, in order.
pub open spec fn writable_pages(l: Seq<NbtV>) -> Seq<NbtV>
    decreases l.len(),
{
    if l.len() == 0 {
        Seq::empty()
    } else {
        let p = writable_pages(l.drop_last());
        match page_raw(l.last()) {
            Some(NbtV::String(s)) => p.push(NbtV::String(s)),
            _ => p,
        }
    }
}

/// The pages of a written book as JSON strings, in order.
pub open spec fn written_pages(l: Seq<NbtV>) -> Seq<NbtV>
    decreases l.len(),
{
    if l.len() == 0 {
        Seq::empty()
    } else {
        let p = written_pages(l.drop_last());
        match page_raw(l.last()) {
            Some(r) => match text_json(r) {
                Some(j) => p.push(NbtV::String(j)),
                None => p,
            },
            None => p,
        }
    }
}

/// The key of a lodestone tracker's flag (`track` followed by `ed`).
pub open spec fn follow_key() -> Seq<char> {
    "track"@ + "ed"@
}

/// A lodestone tracker stored as `LodestoneTracked`, `LodestoneDimension` and
/// `LodestonePos`.
pub open spec fn lodestone_spec(tag: Entries, tr: Entries) -> Entries {
    let follows: i8 = match cget(tr, follow_key()) {
        Some(NbtV::Byte(b)) => b,
        _ => 1,
    };
    let tr1 = crem(tr, follow_key());
    let tag1 = cins(tag, "LodestoneTracked"@, NbtV::Byte(follows));
    match cget(tr1, "target"@) {
        Some(NbtV::Compound(tg)) => {
            let tag2 = match cget(tg, "dimension"@) {
                Some(NbtV::String(d)) => cins(tag1, "LodestoneDimension"@, NbtV::String(d)),
                _ => tag1,
            };
            let tg1 = crem(tg, "dimension"@);
            match cget(tg1, "pos"@) {
                Some(NbtV::IntArray(p)) => if p.len() == 3 {
                    cins(
                        tag2,
                        "LodestonePos"@,
                        NbtV::Compound(
                            cins(
                                cins(cins(Seq::empty(), "X"@, NbtV::Int(p[0])), "Y"@, NbtV::Int(p[1])),
                                "Z"@,
                                NbtV::Int(p[2]),
                            ),
                        ),
                    )
                } else {
                    tag2
                },
                _ => tag2,
            }
        },
        _ => tag1,
    }
}

/// The warning for dropped custom potion effects.
pub open spec fn potion_warning() -> Seq<char> {
    "Custom potion effects were dropped (incompatible format before 1.20.2)."@
}

/// Potion contents stored as `Potion` and `CustomPotionColor`; custom effects are
/// dropped with a warning.
pub open spec fn potion_spec(tag: Entries, v: NbtV, t: Tally) -> (Entries, Tally) {
    match v {
        NbtV::String(p) => (cins(tag, "Potion"@, NbtV::String(p)), t),
        NbtV::Compound(c0) => {
            let tag1 = match cget(c0, "potion"@) {
                Some(NbtV::String(p)) => cins(tag, "Potion"@, NbtV::String(p)),
                _ => tag,
            };
            let c1 = crem(c0, "potion"@);
            let tag2 = match cget(c1, "custom_color"@) {
                Some(NbtV::Int(x)) => cins(tag1, "CustomPotionColor"@, NbtV::Int(x)),
                _ => tag1,
            };
            let c2 = crem(c1, "custom_color"@);
            (
                tag2,
                if has_key(c2, "custom_effects"@) {
                    td(t, potion_warning())
                } else {
                    t
                },
            )
        },
        _ => (tag, t),
    }
}

/// One `textures` property of a profile as `{Value, Signature}`.
pub open spec fn texture_of(pr: Entries) -> Entries {
    let t1 = match cget(pr, "value"@) {
        Some(NbtV::String(v)) => cins(Seq::empty(), "Value"@, NbtV::String(v)),
        _ => Seq::empty(),
    };
    let pr1 = crem(pr, "value"@);
    match cget(pr1, "signature"@) {
        Some(NbtV::String(sg)) => cins(t1, "Signature"@, NbtV::String(sg)),
        _ => t1,
    }
}

/// The `textures` properties of a profile, in order.
pub open spec fn textures_of(props: Seq<NbtV>) -> Seq<NbtV>
    decreases props.len(),
{
    if props.len() == 0 {
        Seq::empty()
    } else {
        let p = textures_of(props.drop_last());
        match props.last() {
            NbtV::Compound(pr) => if cget(pr, "name"@) == Some(NbtV::String("textures"@)) {
                p.push(NbtV::Compound(texture_of(pr)))
            } else {
                p
            },
            _ => p,
        }
    }
}

/// The `SkullOwner` of a profile component.
pub open spec fn owner_of(v: NbtV) -> Entries {
    match v {
        NbtV::String(n) => cins(Seq::empty(), "Name"@, NbtV::String(n)),
        NbtV::Compound(p0) => {
            let o1 = match cget(p0, "name"@) {
                Some(NbtV::String(n)) => cins(Seq::empty(), "Name"@, NbtV::String(n)),
                _ => Seq::empty(),
            };
            let p1 = crem(p0, "name"@);
            let o2 = match cget(p1, "id"@) {
                Some(NbtV::IntArray(a)) => cins(o1, "Id"@, NbtV::IntArray(a)),
                _ => o1,
            };
            let p2 = crem(p1, "id"@);
            match cget(p2, "properties"@) {
                Some(NbtV::List(props)) => {
                    let tx = textures_of(props);
                    if tx.len() > 0 {
                        cins(o2, "Properties"@, NbtV::Compound(cins(Seq::empty(), "textures"@, NbtV::List(tx))))
                    } else {
                        o2
                    }
                },
                _ => o2,
            }
        },
        _ => Seq::empty(),
    }
}

/// A profile component stored as `SkullOwner` (when it gives an owner).
pub open spec fn profile_spec(tag: Entries, v: NbtV) -> Entries {
    let owner = owner_of(v);
    if owner.len() > 0 {
        cins(tag, "SkullOwner"@, NbtV::Compound(owner))
    } else {
        tag
    }
}

/// A written book stored as `title`, `author`, `generation` and `pages`.
pub open spec fn written_book_spec(tag: Entries, b0: Entries) -> Entries {
    let tag1 = match cget(b0, "title"@) {
        Some(title) => {
            let raw = match title {
                NbtV::Compound(m) => cget(m, "raw"@),
                other => Some(other),
            };
            match raw {
                Some(NbtV::String(tt)) => cins(tag, "title"@, NbtV::String(tt)),
                _ => tag,
            }
        },
        None => tag,
    };
    let b1 = crem(b0, "title"@);
    let tag2 = match cget(b1, "author"@) {
        Some(NbtV::String(a)) => cins(tag1, "author"@, NbtV::String(a)),
        _ => tag1,
    };
    let b2 = crem(b1, "author"@);
    let tag3 = match cget(b2, "generation"@) {
        Some(NbtV::Int(g)) => cins(tag2, "generation"@, NbtV::Int(g)),
        _ => tag2,
    };
    let b3 = crem(b2, "generation"@);
    match cget(b3, "pages"@) {
        Some(NbtV::List(pages)) => cins(tag3, "pages"@, NbtV::List(written_pages(pages))),
        _ => tag3,
    }
}

/// The color of a dyed-color component.
pub open spec fn dyed_color_of(v: NbtV) -> Option<i32> {
    match v {
        NbtV::Int(x) => Some(x),
        NbtV::Compound(m) => match cget(m, "rgb"@) {
            Some(NbtV::Int(x)) => Some(x),
            _ => None,
        },
        _ => None,
    }
}

/// The warning for a component without an older equivalent.
pub open spec fn component_warning(key: Seq<char>) -> Seq<char> {
    "Item component '"@ + key + "' has no equivalent before 1.20.5 and was dropped."@
}

/// The warning for a custom model data that is no integer.
pub open spec fn model_data_warning() -> Seq<char> {
    "custom_model_data in a non-integer format was dropped (no pre-1.21.4 equivalent)."@
}

// ---------------------------------------------------------------- the recursive rule

/// An item stack in the legacy form: `count` becomes the byte `Count` (clamped to
/// 0..=127, 1 when missing), the components become `tag` (omitted when empty), and
/// one converted item stack is counted. No result where a component would have to
/// write into a `display` or `BlockEntityTag` entry of the tag that is no compound.
pub open spec fn item_spec(c: Entries, dv: i32, t: Tally, fuel: nat) -> Option<(Entries, Tally)>
    decreases fuel, 3nat, 0nat,
{
    if fuel == 0 {
        Some((c, t))
    } else {
        let count: i32 = match cget(c, "count"@) {
            Some(NbtV::Int(x)) => x,
            _ => 1,
        };
        let c2 = cins(crem(c, "count"@), "Count"@, NbtV::Byte(clamp_byte(count)));
        match cget(c2, "components"@) {
            Some(NbtV::Compound(comps)) => {
                let c3 = crem(c2, "components"@);
                match comps_fold(comps, dv, t, fuel) {
                    None => None,
                    Some((tag, t1)) => Some(
                        (
                            if tag.len() > 0 {
                                cins(c3, "tag"@, NbtV::Compound(tag))
                            } else {
                                c3
                            },
                            ti(t1),
                        ),
                    ),
                }
            },
            Some(_) => Some((crem(c2, "components"@), ti(t))),
            None => Some((c2, ti(t))),
        }
    }
}

/// The tag built from a list of components, one after another.
pub open spec fn comps_fold(comps: Entries, dv: i32, t: Tally, fuel: nat) -> Option<(Entries, Tally)>
    decreases fuel, 2nat, comps.len(),
{
    if comps.len() == 0 {
        Some((Seq::empty(), t))
    } else {
        match comps_fold(comps.drop_last(), dv, t, fuel) {
            None => None,
            Some((tag, t1)) => comp_step(comps.last().0, comps.last().1, tag, dv, t1, fuel),
        }
    }
}

/// One component written into the tag.
pub open spec fn comp_step(
    key: Seq<char>,
    v: NbtV,
    tag: Entries,
    dv: i32,
    t: Tally,
    fuel: nat,
) -> Option<(Entries, Tally)>
    decreases fuel, 1nat, 0nat,
{
    if key == "minecraft:container"@ {
        match container_fold(
            match v {
                NbtV::List(l) => l,
                _ => Seq::empty(),
            },
            dv,
            t,
            fuel,
        ) {
            None => None,
            Some((items, t1)) => match sub_ins(tag, "BlockEntityTag"@, "Items"@, NbtV::List(items)) {
                None => None,
                Some(tg) => Some((tg, t1)),
            },
        }
    } else if key == "minecraft:charged_projectiles"@ {
        match v {
            NbtV::List(ps) => match projectiles_fold(ps, dv, t, fuel) {
                None => None,
                Some((conv, t1)) => {
                    let tg = if conv.len() > 0 {
                        cins(tag, "Charged"@, NbtV::Byte(1))
                    } else {
                        tag
                    };
                    Some((cins(tg, "ChargedProjectiles"@, NbtV::List(conv)), t1))
                },
            },
            _ => Some((tag, t)),
        }
    } else {
        simple_component(key, v, tag, t)
    }
}

/// A component that holds no nested item stack, written into the tag.
pub open spec fn simple_component(key: Seq<char>, v: NbtV, tag: Entries, t: Tally) -> Option<(Entries, Tally)> {
    if key == "minecraft:custom_data"@ {
        Some((match v {
            NbtV::Compound(custom) => merge_into(tag, custom),
            _ => tag,
        }, t))
    } else if key == "minecraft:damage"@ {
        Some((cins(tag, "Damage"@, v), t))
    } else if key == "minecraft:repair_cost"@ {
        Some((cins(tag, "RepairCost"@, v), t))
    } else if key == "minecraft:unbreakable"@ {
        Some((cins(tag, "Unbreakable"@, NbtV::Byte(1)), t))
    } else if key == "minecraft:enchantments"@ {
        Some((match enchantments_spec(v) {
            Some(l) => cins(tag, "Enchantments"@, l),
            None => tag,
        }, t))
    } else if key == "minecraft:stored_enchantments"@ {
        Some((match enchantments_spec(v) {
            Some(l) => cins(tag, "StoredEnchantments"@, l),
            None => tag,
        }, t))
    } else if key == "minecraft:custom_name"@ {
        match text_json(v) {
            Some(j) => match sub_ins(tag, "display"@, "Name"@, NbtV::String(j)) {
                Some(tg) => Some((tg, t)),
                None => None,
            },
            None => Some((tag, t)),
        }
    } else if key == "minecraft:lore"@ {
        match v {
            NbtV::List(lines) => match sub_ins(tag, "display"@, "Lore"@, NbtV::List(json_filter(lines))) {
                Some(tg) => Some((tg, t)),
                None => None,
            },
            _ => Some((tag, t)),
        }
    } else if key == "minecraft:block_entity_data"@ {
        match v {
            NbtV::Compound(data) => match sub_merge(tag, "BlockEntityTag"@, data) {
                Some(tg) => Some((tg, t)),
                None => None,
            },
            _ => Some((tag, t)),
        }
    } else if key == "minecraft:entity_data"@ {
        Some((match v {
            NbtV::Compound(_) => cins(tag, "EntityTag"@, v),
            _ => tag,
        }, t))
    } else if key == "minecraft:bucket_entity_data"@ {
        Some((match v {
            NbtV::Compound(data) => merge_into(tag, data),
            _ => tag,
        }, t))
    } else if key == "minecraft:custom_model_data"@ {
        match v {
            NbtV::Int(_) => Some((cins(tag, "CustomModelData"@, v), t)),
            _ => Some((tag, td(t, model_data_warning()))),
        }
    } else if key == "minecraft:dyed_color"@ {
        match dyed_color_of(v) {
            Some(col) => match sub_ins(tag, "display"@, "color"@, NbtV::Int(col)) {
                Some(tg) => Some((tg, t)),
                None => None,
            },
            None => Some((tag, t)),
        }
    } else if key == "minecraft:lodestone_tracker"@ {
        Some((match v {
            NbtV::Compound(tr) => lodestone_spec(tag, tr),
            _ => tag,
        }, t))
    } else if key == "minecraft:map_id"@ {
        Some((match v {
            NbtV::Int(_) => cins(tag, "map"@, v),
            _ => tag,
        }, t))
    } else if key == "minecraft:potion_contents"@ {
        Some(potion_spec(tag, v, t))
    } else if key == "minecraft:profile"@ {
        Some((profile_spec(tag, v), t))
    } else if key == "minecraft:writable_book_content"@ {
        Some((match v {
            NbtV::Compound(book) => match cget(book, "pages"@) {
                Some(NbtV::List(pages)) => cins(tag, "pages"@, NbtV::List(writable_pages(pages))),
                _ => tag,
            },
            _ => tag,
        }, t))
    } else if key == "minecraft:written_book_content"@ {
        Some((match v {
            NbtV::Compound(book) => written_book_spec(tag, book),
            _ => tag,
        }, t))
    } else {
        Some((tag, td(t, component_warning(key))))
    }
}

/// The item stacks of a container component (entries `{slot, item}`), converted and
/// given their `Slot` byte, in order; entries without an item compound are skipped.
pub open spec fn container_fold(l: Seq<NbtV>, dv: i32, t: Tally, fuel: nat) -> Option<(Seq<NbtV>, Tally)>
    decreases fuel, 0nat, l.len(),
{
    if l.len() == 0 {
        Some((Seq::empty(), t))
    } else {
        match container_fold(l.drop_last(), dv, t, fuel) {
            None => None,
            Some((acc, t1)) => match l.last() {
                NbtV::Compound(e0) => {
                    let slot: i32 = match cget(e0, "slot"@) {
                        Some(NbtV::Int(s)) => s,
                        _ => 0,
                    };
                    let e1 = crem(e0, "slot"@);
                    match cget(e1, "item"@) {
                        Some(NbtV::Compound(item)) => if fuel == 0 {
                            Some((acc.push(NbtV::Compound(cins(item, "Slot"@, NbtV::Byte(clamp_byte(slot))))), t1))
                        } else {
                            match item_spec(item, dv, t1, (fuel - 1) as nat) {
                                None => None,
                                Some((it2, t2)) => Some(
                                    (acc.push(NbtV::Compound(cins(it2, "Slot"@, NbtV::Byte(clamp_byte(slot))))), t2),
                                ),
                            }
                        },
                        _ => Some((acc, t1)),
                    }
                },
                _ => Some((acc, t1)),
            },
        }
    }
}

/// The compound projectiles of a crossbow, converted, in order.
pub open spec fn projectiles_fold(l: Seq<NbtV>, dv: i32, t: Tally, fuel: nat) -> Option<(Seq<NbtV>, Tally)>
    decreases fuel, 0nat, l.len(),
{
    if l.len() == 0 {
        Some((Seq::empty(), t))
    } else {
        match projectiles_fold(l.drop_last(), dv, t, fuel) {
            None => None,
            Some((acc, t1)) => match l.last() {
                NbtV::Compound(item) => if fuel == 0 {
                    Some((acc.push(NbtV::Compound(item)), t1))
                } else {
                    match item_spec(item, dv, t1, (fuel - 1) as nat) {
                        None => None,
                        Some((it2, t2)) => Some((acc.push(NbtV::Compound(it2)), t2)),
                    }
                },
                _ => Some((acc, t1)),
            },
        }
    }
}

// ---------------------------------------------------------------- monotonicity

proof fn lemma_simple_grows(key: Seq<char>, v: NbtV, tag: Entries, t: Tally)
    ensures
        simple_component(key, v, tag, t) matches Some((_, t2)) ==> tle(t, t2),
{
}

/// The rules only ever raise the counters.
pub proof fn lemma_item_grows(c: Entries, dv: i32, t: Tally, fuel: nat)
    ensures
        item_spec(c, dv, t, fuel) matches Some((_, t2)) ==> tle(t, t2),
    decreases fuel, 3nat, 0nat,
{
    if fuel > 0 {
        let count: i32 = match cget(c, "count"@) {
            Some(NbtV::Int(x)) => x,
            _ => 1,
        };
        let c2 = cins(crem(c, "count"@), "Count"@, NbtV::Byte(clamp_byte(count)));
        match cget(c2, "components"@) {
            Some(NbtV::Compound(comps)) => {
                lemma_comps_grows(comps, dv, t, fuel);
            },
            _ => {},
        }
    }
}

proof fn lemma_comps_grows(comps: Entries, dv: i32, t: Tally, fuel: nat)
    ensures
        comps_fold(comps, dv, t, fuel) matches Some((_, t2)) ==> tle(t, t2),
    decreases fuel, 2nat, comps.len(),
{
    if comps.len() > 0 {
        lemma_comps_grows(comps.drop_last(), dv, t, fuel);
        match comps_fold(comps.drop_last(), dv, t, fuel) {
            Some((tag, t1)) => {
                lemma_step_grows(comps.last().0, comps.last().1, tag, dv, t1, fuel);
            },
            None => {},
        }
    }
}

proof fn lemma_step_grows(key: Seq<char>, v: NbtV, tag: Entries, dv: i32, t: Tally, fuel: nat)
    ensures
        comp_step(key, v, tag, dv, t, fuel) matches Some((_, t2)) ==> tle(t, t2),
    decreases fuel, 1nat, 0nat,
{
    lemma_simple_grows(key, v, tag, t);
    lemma_container_grows(
        match v {
            NbtV::List(l) => l,
            _ => Seq::empty(),
        },
        dv,
        t,
        fuel,
    );
    match v {
        NbtV::List(ps) => lemma_projectiles_grows(ps, dv, t, fuel),
        _ => {},
    }
}

proof fn lemma_container_grows(l: Seq<NbtV>, dv: i32, t: Tally, fuel: nat)
    ensures
        container_fold(l, dv, t, fuel) matches Some((_, t2)) ==> tle(t, t2),
    decreases fuel, 0nat, l.len(),
{
    if l.len() > 0 {
        lemma_container_grows(l.drop_last(), dv, t, fuel);
        match container_fold(l.drop_last(), dv, t, fuel) {
            Some((acc, t1)) => match l.last() {
                NbtV::Compound(e0) => {
                    let e1 = crem(e0, "slot"@);
                    match cget(e1, "item"@) {
                        Some(NbtV::Compound(item)) => if fuel > 0 {
                            lemma_item_grows(item, dv, t1, (fuel - 1) as nat);
                        },
                        _ => {},
                    }
                },
                _ => {},
            },
            None => {},
        }
    }
}

proof fn lemma_projectiles_grows(l: Seq<NbtV>, dv: i32, t: Tally, fuel: nat)
    ensures
        projectiles_fold(l, dv, t, fuel) matches Some((_, t2)) ==> tle(t, t2),
    decreases fuel, 0nat, l.len(),
{
    if l.len() > 0 {
        lemma_projectiles_grows(l.drop_last(), dv, t, fuel);
        match projectiles_fold(l.drop_last(), dv, t, fuel) {
            Some((acc, t1)) => match l.last() {
                NbtV::Compound(item) => if fuel > 0 {
                    lemma_item_grows(item, dv, t1, (fuel - 1) as nat);
                },
                _ => {},
            },
            None => {},
        }
    }
}

// ---------------------------------------------------------------- executable pieces

fn merge_into_exec(tag: &mut Vec<(String, Nbt)>, es: Vec<(String, Nbt)>)
    ensures
        cv(final(tag)@) == merge_into(cv(old(tag)@), cv(es@)),
    decreases es@.len(),
{
    let ghost e0 = es@;
    let mut es = es;
    match es.pop() {
        None => {
            assert(cv(e0) =~= Seq::<(Seq<char>, NbtV)>::empty());
        },
        Some((k, v)) => {
            proof {
                lemma_cv_drop_last(e0);
            }
            merge_into_exec(tag, es);
            insert(tag, k.as_str(), v);
        },
    }
}

fn sub_insert(tag: &mut Vec<(String, Nbt)>, name: &str, k: &str, v: Nbt) -> (ok: bool)
    ensures
        ok == sub_ins(cv(old(tag)@), name@, k@, nv(v)) is Some,
        ok ==> Some(cv(final(tag)@)) == sub_ins(cv(old(tag)@), name@, k@, nv(v)),
{
    let ghost before = tag@;
    match take(tag, name) {
        None => {
            let mut d = empty_entries();
            insert(&mut d, k, v);
            insert(tag, name, Nbt::Compound(d));
            true
        },
        Some((i, Nbt::Compound(mut d))) => {
            insert(&mut d, k, v);
            restore(tag, i, Nbt::Compound(d), Ghost(before), Ghost(name@));
            true
        },
        Some((i, other)) => false,
    }
}

fn sub_merge_exec(tag: &mut Vec<(String, Nbt)>, name: &str, es: Vec<(String, Nbt)>) -> (ok: bool)
    ensures
        ok == sub_merge(cv(old(tag)@), name@, cv(es@)) is Some,
        ok ==> Some(cv(final(tag)@)) == sub_merge(cv(old(tag)@), name@, cv(es@)),
{
    let ghost before = tag@;
    match take(tag, name) {
        None => {
            let mut d = empty_entries();
            merge_into_exec(&mut d, es);
            insert(tag, name, Nbt::Compound(d));
            true
        },
        Some((i, Nbt::Compound(mut d))) => {
            merge_into_exec(&mut d, es);
            restore(tag, i, Nbt::Compound(d), Ghost(before), Ghost(name@));
            true
        },
        Some((i, other)) => false,
    }
}

fn enchant_list_exec(levels: Vec<(String, Nbt)>) -> (r: Vec<Nbt>)
    ensures
        lv(r@) == enchant_list(cv(levels@)),
    decreases levels@.len(),
{
    let ghost l0 = levels@;
    let mut levels = levels;
    match levels.pop() {
        None => {
            assert(cv(l0) =~= Seq::<(Seq<char>, NbtV)>::empty());
            empty_list()
        },
        Some((id, level)) => {
            proof {
                lemma_cv_drop_last(l0);
            }
            let mut p = enchant_list_exec(levels);
            let lvl: Option<i16> = match level {
                Nbt::Int(x) => Some(x as i16),
                Nbt::Short(x) => Some(x),
                Nbt::Byte(x) => Some(x as i16),
                _ => None,
            };
            match lvl {
                Some(l) => {
                    let mut e = empty_entries();
                    insert(&mut e, "id", Nbt::String(id));
                    insert(&mut e, "lvl", Nbt::Short(l));
                    list_push(&mut p, Nbt::Compound(e));
                },
                None => {},
            }
            p
        },
    }
}

fn enchantments_exec(v: Nbt) -> (r: Option<Nbt>)
    ensures
        match r {
            Some(x) => enchantments_spec(nv(v)) == Some(nv(x)),
            None => enchantments_spec(nv(v)) is None,
        },
{
    match v {
        Nbt::Compound(m) => {
            let wrapped = match get(&m, "levels") {
                Some(Nbt::Compound(_)) => true,
                _ => false,
            };
            let mut m = m;
            let levels = if wrapped {
                match remove(&mut m, "levels") {
                    Some(Nbt::Compound(l)) => l,
                    _ => {
                        assert(false);
                        empty_entries()
                    },
                }
            } else {
                m
            };
            Some(Nbt::List(enchant_list_exec(levels)))
        },
        _ => None,
    }
}

fn json_filter_exec(l: Vec<Nbt>) -> (r: Vec<Nbt>)
    ensures
        lv(r@) == json_filter(lv(l@)),
    decreases l@.len(),
{
    let ghost l0 = l@;
    let mut l = l;
    match l.pop() {
        None => {
            assert(lv(l0) =~= Seq::<NbtV>::empty());
            empty_list()
        },
        Some(last) => {
            proof {
                lemma_lv_drop_last(l0);
            }
            let mut p = json_filter_exec(l);
            match text_to_json(&last) {
                Some(j) => list_push(&mut p, Nbt::String(j)),
                None => {},
            }
            p
        },
    }
}

fn page_raw_exec(p: Nbt) -> (r: Option<Nbt>)
    ensures
        match r {
            Some(x) => page_raw(nv(p)) == Some(nv(x)),
            None => page_raw(nv(p)) is None,
        },
{
    match p {
        Nbt::Compound(m) => {
            let mut m = m;
            remove(&mut m, "raw")
        },
        other => Some(other),
    }
}

fn writable_pages_exec(l: Vec<Nbt>) -> (r: Vec<Nbt>)
    ensures
        lv(r@) == writable_pages(lv(l@)),
    decreases l@.len(),
{
    let ghost l0 = l@;
    let mut l = l;
    match l.pop() {
        None => {
            assert(lv(l0) =~= Seq::<NbtV>::empty());
            empty_list()
        },
        Some(last) => {
            proof {
                lemma_lv_drop_last(l0);
            }
            let mut p = writable_pages_exec(l);
            match page_raw_exec(last) {
                Some(Nbt::String(s)) => list_push(&mut p, Nbt::String(s)),
                _ => {},
            }
            p
        },
    }
}

fn written_pages_exec(l: Vec<Nbt>) -> (r: Vec<Nbt>)
    ensures
        lv(r@) == written_pages(lv(l@)),
    decreases l@.len(),
{
    let ghost l0 = l@;
    let mut l = l;
    match l.pop() {
        None => {
            assert(lv(l0) =~= Seq::<NbtV>::empty());
            empty_list()
        },
        Some(last) => {
            proof {
                lemma_lv_drop_last(l0);
            }
            let mut p = written_pages_exec(l);
            match page_raw_exec(last) {
                Some(r) => match text_to_json(&r) {
                    Some(j) => list_push(&mut p, Nbt::String(j)),
                    None => {},
                },
                None => {},
            }
            p
        },
    }
}

fn follow_key_exec() -> (r: String)
    ensures
        r@ == follow_key(),
{
    concat2("track", "ed")
}

fn lodestone_exec(tag: &mut Vec<(String, Nbt)>, tr: Vec<(String, Nbt)>)
    ensures
        cv(final(tag)@) == lodestone_spec(cv(old(tag)@), cv(tr@)),
{
    let mut tr = tr;
    let key = follow_key_exec();
    proof {
        reveal_strlit("");
        assert(key@ == follow_key());
    }
    let follows: i8 = match remove(&mut tr, key.as_str()) {
        Some(Nbt::Byte(b)) => b,
        _ => 1,
    };
    insert(tag, "LodestoneTracked", Nbt::Byte(follows));
    match remove(&mut tr, "target") {
        Some(Nbt::Compound(mut tg)) => {
            match remove(&mut tg, "dimension") {
                Some(Nbt::String(d)) => insert(tag, "LodestoneDimension", Nbt::String(d)),
                _ => {},
            }
            match remove(&mut tg, "pos") {
                Some(Nbt::IntArray(p)) => {
                    if p.len() == 3 {
                        let mut pos = empty_entries();
                        insert(&mut pos, "X", Nbt::Int(p[0]));
                        insert(&mut pos, "Y", Nbt::Int(p[1]));
                        insert(&mut pos, "Z", Nbt::Int(p[2]));
                        insert(tag, "LodestonePos", Nbt::Compound(pos));
                    }
                },
                _ => {},
            }
        },
        _ => {},
    }
}

fn potion_exec(tag: &mut Vec<(String, Nbt)>, v: Nbt, report: &mut Report) -> (ok: bool)
    ensures
        ok == fits(potion_spec(cv(old(tag)@), nv(v), tally(*old(report))).1),
        ok ==> (cv(final(tag)@), tally(*final(report))) == potion_spec(cv(old(tag)@), nv(v), tally(*old(report))),
        same_other_counters(*old(report), *final(report)),
{
    match v {
        Nbt::String(p) => {
            insert(tag, "Potion", Nbt::String(p));
            true
        },
        Nbt::Compound(mut c0) => {
            match remove(&mut c0, "potion") {
                Some(Nbt::String(p)) => insert(tag, "Potion", Nbt::String(p)),
                _ => {},
            }
            match remove(&mut c0, "custom_color") {
                Some(Nbt::Int(x)) => insert(tag, "CustomPotionColor", Nbt::Int(x)),
                _ => {},
            }
            if remove(&mut c0, "custom_effects").is_some() {
                if report.dropped_data == u64::MAX {
                    return false;
                }
                report.drop_with_warning(
                    string_of("Custom potion effects were dropped (incompatible format before 1.20.2)."),
                );
            }
            true
        },
        _ => true,
    }
}

fn texture_exec(pr: Vec<(String, Nbt)>) -> (r: Vec<(String, Nbt)>)
    ensures
        cv(r@) == texture_of(cv(pr@)),
{
    let mut pr = pr;
    let mut t = empty_entries();
    match remove(&mut pr, "value") {
        Some(Nbt::String(v)) => insert(&mut t, "Value", Nbt::String(v)),
        _ => {},
    }
    match remove(&mut pr, "signature") {
        Some(Nbt::String(sg)) => insert(&mut t, "Signature", Nbt::String(sg)),
        _ => {},
    }
    t
}

fn textures_exec(props: Vec<Nbt>) -> (r: Vec<Nbt>)
    ensures
        lv(r@) == textures_of(lv(props@)),
    decreases props@.len(),
{
    let ghost l0 = props@;
    let mut props = props;
    match props.pop() {
        None => {
            assert(lv(l0) =~= Seq::<NbtV>::empty());
            empty_list()
        },
        Some(last) => {
            proof {
                lemma_lv_drop_last(l0);
            }
            let mut p = textures_exec(props);
            match last {
                Nbt::Compound(pr) => {
                    let is_textures = match get(&pr, "name") {
                        Some(Nbt::String(n)) => str_eq(n.as_str(), "textures"),
                        _ => false,
                    };
                    if is_textures {
                        list_push(&mut p, Nbt::Compound(texture_exec(pr)));
                    }
                },
                _ => {},
            }
            p
        },
    }
}

fn owner_exec(v: Nbt) -> (r: Vec<(String, Nbt)>)
    ensures
        cv(r@) == owner_of(nv(v)),
{
    match v {
        Nbt::String(n) => {
            let mut o = empty_entries();
            insert(&mut o, "Name", Nbt::String(n));
            o
        },
        Nbt::Compound(mut p0) => {
            let mut o = empty_entries();
            match remove(&mut p0, "name") {
                Some(Nbt::String(n)) => insert(&mut o, "Name", Nbt::String(n)),
                _ => {},
            }
            match remove(&mut p0, "id") {
                Some(Nbt::IntArray(a)) => insert(&mut o, "Id", Nbt::IntArray(a)),
                _ => {},
            }
            match remove(&mut p0, "properties") {
                Some(Nbt::List(props)) => {
                    let tx = textures_exec(props);
                    if tx.len() > 0 {
                        let mut holder = empty_entries();
                        insert(&mut holder, "textures", Nbt::List(tx));
                        insert(&mut o, "Properties", Nbt::Compound(holder));
                    }
                },
                _ => {},
            }
            o
        },
        _ => empty_entries(),
    }
}

fn profile_exec(tag: &mut Vec<(String, Nbt)>, v: Nbt)
    ensures
        cv(final(tag)@) == profile_spec(cv(old(tag)@), nv(v)),
{
    let owner = owner_exec(v);
    if owner.len() > 0 {
        insert(tag, "SkullOwner", Nbt::Compound(owner));
    }
}

fn written_book_exec(tag: &mut Vec<(String, Nbt)>, b0: Vec<(String, Nbt)>)
    ensures
        cv(final(tag)@) == written_book_spec(cv(old(tag)@), cv(b0@)),
{
    let mut b = b0;
    match remove(&mut b, "title") {
        Some(title) => {
            let raw = match title {
                Nbt::Compound(mut m) => remove(&mut m, "raw"),
                other => Some(other),
            };
            match raw {
                Some(Nbt::String(tt)) => insert(tag, "title", Nbt::String(tt)),
                _ => {},
            }
        },
        None => {},
    }
    match remove(&mut b, "author") {
        Some(Nbt::String(a)) => insert(tag, "author", Nbt::String(a)),
        _ => {},
    }
    match remove(&mut b, "generation") {
        Some(Nbt::Int(g)) => insert(tag, "generation", Nbt::Int(g)),
        _ => {},
    }
    match remove(&mut b, "pages") {
        Some(Nbt::List(pages)) => insert(tag, "pages", Nbt::List(written_pages_exec(pages))),
        _ => {},
    }
}

fn dyed_color_exec(v: &Nbt) -> (r: Option<i32>)
    ensures
        r == dyed_color_of(nv(*v)),
{
    match v {
        Nbt::Int(x) => Some(*x),
        Nbt::Compound(m) => match get(m, "rgb") {
            Some(Nbt::Int(x)) => Some(*x),
            _ => None,
        },
        _ => None,
    }
}

fn simple_component_exec(key: &str, v: Nbt, tag: &mut Vec<(String, Nbt)>, report: &mut Report) -> (ok: bool)
    ensures
        ok == (simple_component(key@, nv(v), cv(old(tag)@), tally(*old(report))) matches Some((_, t2)) && fits(t2)),
        ok ==> simple_component(key@, nv(v), cv(old(tag)@), tally(*old(report))) == Some((cv(final(tag)@), tally(*final(report)))),
        same_other_counters(*old(report), *final(report)),
{
    if str_eq(key, "minecraft:custom_data") {
        match v {
            Nbt::Compound(custom) => merge_into_exec(tag, custom),
            _ => {},
        }
    } else if str_eq(key, "minecraft:damage") {
        insert(tag, "Damage", v);
    } else if str_eq(key, "minecraft:repair_cost") {
        insert(tag, "RepairCost", v);
    } else if str_eq(key, "minecraft:unbreakable") {
        insert(tag, "Unbreakable", Nbt::Byte(1));
    } else if str_eq(key, "minecraft:enchantments") {
        match enchantments_exec(v) {
            Some(l) => insert(tag, "Enchantments", l),
            None => {},
        }
    } else if str_eq(key, "minecraft:stored_enchantments") {
        match enchantments_exec(v) {
            Some(l) => insert(tag, "StoredEnchantments", l),
            None => {},
        }
    } else if str_eq(key, "minecraft:custom_name") {
        match text_to_json(&v) {
            Some(j) => {
                return sub_insert(tag, "display", "Name", Nbt::String(j));
            },
            None => {},
        }
    } else if str_eq(key, "minecraft:lore") {
        match v {
            Nbt::List(lines) => {
                return sub_insert(tag, "display", "Lore", Nbt::List(json_filter_exec(lines)));
            },
            _ => {},
        }
    } else if str_eq(key, "minecraft:block_entity_data") {
        match v {
            Nbt::Compound(data) => {
                return sub_merge_exec(tag, "BlockEntityTag", data);
            },
            _ => {},
        }
    } else if str_eq(key, "minecraft:entity_data") {
        let is_compound = match &v {
            Nbt::Compound(_) => true,
            _ => false,
        };
        if is_compound {
            insert(tag, "EntityTag", v);
        }
    } else if str_eq(key, "minecraft:bucket_entity_data") {
        match v {
            Nbt::Compound(data) => merge_into_exec(tag, data),
            _ => {},
        }
    } else if str_eq(key, "minecraft:custom_model_data") {
        let is_int = match &v {
            Nbt::Int(_) => true,
            _ => false,
        };
        if is_int {
            insert(tag, "CustomModelData", v);
        } else {
            if report.dropped_data == u64::MAX {
                return false;
            }
            report.drop_with_warning(
                string_of("custom_model_data in a non-integer format was dropped (no pre-1.21.4 equivalent)."),
            );
        }
    } else if str_eq(key, "minecraft:dyed_color") {
        match dyed_color_exec(&v) {
            Some(col) => {
                return sub_insert(tag, "display", "color", Nbt::Int(col));
            },
            None => {},
        }
    } else if str_eq(key, "minecraft:lodestone_tracker") {
        match v {
            Nbt::Compound(tr) => lodestone_exec(tag, tr),
            _ => {},
        }
    } else if str_eq(key, "minecraft:map_id") {
        let is_int = match &v {
            Nbt::Int(_) => true,
            _ => false,
        };
        if is_int {
            insert(tag, "map", v);
        }
    } else if str_eq(key, "minecraft:potion_contents") {
        return potion_exec(tag, v, report);
    } else if str_eq(key, "minecraft:profile") {
        profile_exec(tag, v);
    } else if str_eq(key, "minecraft:writable_book_content") {
        match v {
            Nbt::Compound(mut book) => match remove(&mut book, "pages") {
                Some(Nbt::List(pages)) => insert(tag, "pages", Nbt::List(writable_pages_exec(pages))),
                _ => {},
            },
            _ => {},
        }
    } else if str_eq(key, "minecraft:written_book_content") {
        match v {
            Nbt::Compound(book) => written_book_exec(tag, book),
            _ => {},
        }
    } else {
        if report.dropped_data == u64::MAX {
            return false;
        }
        report.drop_with_warning(
            concat3("Item component '", key, "' has no equivalent before 1.20.5 and was dropped."),
        );
    }
    true
}

// ---------------------------------------------------------------- the recursive rule, executable

/// Converts an item stack to the legacy form (see [`item_spec`]), with the nesting
/// depth that a whole downgrade allows ([`crate::downgrade::depth_budget`]).
pub fn convert_item_stack(c: &mut Vec<(String, Nbt)>, dv: i32, report: &mut Report)
    requires
        item_spec(cv(old(c)@), dv, tally(*old(report)), crate::downgrade::depth_budget()) matches Some((_, t2))
            && fits(t2),
    ensures
        item_spec(cv(old(c)@), dv, tally(*old(report)), crate::downgrade::depth_budget()) == Some(
            (cv(final(c)@), tally(*final(report))),
        ),
        same_other_counters(*old(report), *final(report)),
{
    let ok = item_exec(c, dv, report, u64::MAX);
}

/// Converts an item stack to the legacy form; false, with the stack and the report
/// left part-way, exactly where [`item_spec`] has no result or its counters overflow.
pub(crate) fn item_exec(c: &mut Vec<(String, Nbt)>, dv: i32, report: &mut Report, fuel: u64) -> (ok: bool)
    ensures
        ok == (item_spec(cv(old(c)@), dv, tally(*old(report)), fuel as nat) matches Some((_, t2)) && fits(t2)),
        ok ==> item_spec(cv(old(c)@), dv, tally(*old(report)), fuel as nat) == Some((cv(final(c)@), tally(*final(report)))),
        same_other_counters(*old(report), *final(report)),
    decreases fuel, 3nat, 0nat,
{
    if fuel == 0 {
        return true;
    }
    let count: i32 = match remove(c, "count") {
        Some(Nbt::Int(x)) => x,
        _ => 1,
    };
    let b: i8 = if count < 0 {
        0
    } else if count > 127 {
        127
    } else {
        count as i8
    };
    insert(c, "Count", Nbt::Byte(b));
    match remove(c, "components") {
        Some(Nbt::Compound(comps)) => {
            proof {
                lemma_comps_grows(cv(comps@), dv, tally(*report), fuel as nat);
            }
            let tag = match comps_fold_exec(comps, dv, report, fuel) {
                Some(tag) => tag,
                None => {
                    return false;
                },
            };
            if tag.len() > 0 {
                insert(c, "tag", Nbt::Compound(tag));
            }
        },
        _ => {},
    }
    if report.items_converted == u64::MAX {
        return false;
    }
    report.count_item();
    true
}

fn comps_fold_exec(comps: Vec<(String, Nbt)>, dv: i32, report: &mut Report, fuel: u64) -> (r: Option<Vec<(String, Nbt)>>)
    requires
        fuel > 0,
    ensures
        r is Some == (comps_fold(cv(comps@), dv, tally(*old(report)), fuel as nat) matches Some((_, t2)) && fits(t2)),
        r matches Some(tag) ==> comps_fold(cv(comps@), dv, tally(*old(report)), fuel as nat) == Some((cv(tag@), tally(*final(report)))),
        same_other_counters(*old(report), *final(report)),
    decreases fuel, 2nat, comps@.len(),
{
    let ghost l0 = comps@;
    let mut comps = comps;
    match comps.pop() {
        None => {
            assert(cv(l0) =~= Seq::<(Seq<char>, NbtV)>::empty());
            Some(empty_entries())
        },
        Some((key, value)) => {
            proof {
                lemma_cv_drop_last(l0);
                match comps_fold(cv(comps@), dv, tally(*report), fuel as nat) {
                    Some((tag, t1)) => {
                        lemma_step_grows(key@, nv(value), tag, dv, t1, fuel as nat);
                    },
                    None => {},
                }
            }
            let mut tag = match comps_fold_exec(comps, dv, report, fuel) {
                Some(tag) => tag,
                None => {
                    return None;
                },
            };
            if comp_step_exec(key.as_str(), value, &mut tag, dv, report, fuel) {
                Some(tag)
            } else {
                None
            }
        },
    }
}

fn comp_step_exec(key: &str, v: Nbt, tag: &mut Vec<(String, Nbt)>, dv: i32, report: &mut Report, fuel: u64) -> (ok: bool)
    requires
        fuel > 0,
    ensures
        ok == (comp_step(key@, nv(v), cv(old(tag)@), dv, tally(*old(report)), fuel as nat) matches Some((_, t2)) && fits(t2)),
        ok ==> comp_step(key@, nv(v), cv(old(tag)@), dv, tally(*old(report)), fuel as nat) == Some((cv(final(tag)@), tally(*final(report)))),
        same_other_counters(*old(report), *final(report)),
    decreases fuel, 1nat, 0nat,
{
    if str_eq(key, "minecraft:container") {
        let l = match v {
            Nbt::List(l) => l,
            _ => empty_list(),
        };
        proof {
            lemma_container_grows(lv(l@), dv, tally(*report), fuel as nat);
        }
        let items = match container_exec(l, dv, report, fuel) {
            Some(items) => items,
            None => {
                return false;
            },
        };
        sub_insert(tag, "BlockEntityTag", "Items", Nbt::List(items))
    } else if str_eq(key, "minecraft:charged_projectiles") {
        match v {
            Nbt::List(ps) => {
                proof {
                    lemma_projectiles_grows(lv(ps@), dv, tally(*report), fuel as nat);
                }
                let conv = match projectiles_exec(ps, dv, report, fuel) {
                    Some(conv) => conv,
                    None => {
                        return false;
                    },
                };
                if conv.len() > 0 {
                    insert(tag, "Charged", Nbt::Byte(1));
                }
                insert(tag, "ChargedProjectiles", Nbt::List(conv));
                true
            },
            _ => true,
        }
    } else {
        simple_component_exec(key, v, tag, report)
    }
}

fn container_exec(l: Vec<Nbt>, dv: i32, report: &mut Report, fuel: u64) -> (r: Option<Vec<Nbt>>)
    requires
        fuel > 0,
    ensures
        r is Some == (container_fold(lv(l@), dv, tally(*old(report)), fuel as nat) matches Some((_, t2)) && fits(t2)),
        r matches Some(items) ==> container_fold(lv(l@), dv, tally(*old(report)), fuel as nat) == Some((lv(items@), tally(*final(report)))),
        same_other_counters(*old(report), *final(report)),
    decreases fuel, 0nat, l@.len(),
{
    let ghost l0 = l@;
    let mut l = l;
    match l.pop() {
        None => {
            assert(lv(l0) =~= Seq::<NbtV>::empty());
            Some(empty_list())
        },
        Some(last) => {
            proof {
                lemma_lv_drop_last(l0);
                match container_fold(lv(l@), dv, tally(*report), fuel as nat) {
                    Some((_, t1)) => match nv(last) {
                        NbtV::Compound(e0) => match cget(crem(e0, "slot"@), "item"@) {
                            Some(NbtV::Compound(item)) => {
                                lemma_item_grows(item, dv, t1, (fuel - 1) as nat);
                            },
                            _ => {},
                        },
                        _ => {},
                    },
                    None => {},
                }
            }
            let mut acc = match container_exec(l, dv, report, fuel) {
                Some(acc) => acc,
                None => {
                    return None;
                },
            };
            match last {
                Nbt::Compound(mut e0) => {
                    let slot: i32 = match remove(&mut e0, "slot") {
                        Some(Nbt::Int(s)) => s,
                        _ => 0,
                    };
                    let b: i8 = if slot < 0 {
                        0
                    } else if slot > 127 {
                        127
                    } else {
                        slot as i8
                    };
                    match remove(&mut e0, "item") {
                        Some(Nbt::Compound(mut item)) => {
                            if !item_exec(&mut item, dv, report, fuel - 1) {
                                return None;
                            }
                            insert(&mut item, "Slot", Nbt::Byte(b));
                            list_push(&mut acc, Nbt::Compound(item));
                        },
                        _ => {},
                    }
                },
                _ => {},
            }
            Some(acc)
        },
    }
}

fn projectiles_exec(l: Vec<Nbt>, dv: i32, report: &mut Report, fuel: u64) -> (r: Option<Vec<Nbt>>)
    requires
        fuel > 0,
    ensures
        r is Some == (projectiles_fold(lv(l@), dv, tally(*old(report)), fuel as nat) matches Some((_, t2)) && fits(t2)),
        r matches Some(items) ==> projectiles_fold(lv(l@), dv, tally(*old(report)), fuel as nat) == Some((lv(items@), tally(*final(report)))),
        same_other_counters(*old(report), *final(report)),
    decreases fuel, 0nat, l@.len(),
{
    let ghost l0 = l@;
    let mut l = l;
    match l.pop() {
        None => {
            assert(lv(l0) =~= Seq::<NbtV>::empty());
            Some(empty_list())
        },
        Some(last) => {
            proof {
                lemma_lv_drop_last(l0);
                match projectiles_fold(lv(l@), dv, tally(*report), fuel as nat) {
                    Some((_, t1)) => match nv(last) {
                        NbtV::Compound(item) => {
                            lemma_item_grows(item, dv, t1, (fuel - 1) as nat);
                        },
                        _ => {},
                    },
                    None => {},
                }
            }
            let mut acc = match projectiles_exec(l, dv, report, fuel) {
                Some(acc) => acc,
                None => {
                    return None;
                },
            };
            match last {
                Nbt::Compound(mut item) => {
                    if !item_exec(&mut item, dv, report, fuel - 1) {
                        return None;
                    }
                    list_push(&mut acc, Nbt::Compound(item));
                },
                _ => {},
            }
            Some(acc)
        },
    }
}

} // verus!
