//! Per-chunk rewriting: the target data version, the block allowlist, the NBT
//! downgrade, the light data that older versions recompute, and the block entities
//! that older versions expect next to certain blocks (beds, ender chests, beacons, ...).
use vstd::prelude::*;
use crate::downgrade::{downgrade_spec, try_downgrade_compound};
use crate::keymap::{key_lookup, lookup, table_view};
use crate::mapping::{filter_spec, try_filter_chunk_blocks, BlockTable};
use crate::nbt_bytes::decode_nbt;
use crate::error::Error;
use crate::nbt::{cget, cins, contains_key, crem, cv, get, insert, lemma_cins_same, lemma_cv, lemma_lv, list_take, lv, nv, remove, restore, take, Entries, Nbt, NbtV};
use crate::report::{fits, same_other_counters, tally, Report, Tally};
use crate::text::{ends_with, string_of};

verus! {

// ---------------------------------------------------------------- block entity ids

/// Blocks that older versions give a block entity, with its id.
pub open spec fn synthesized_table() -> Seq<(Seq<char>, Seq<char>)> {
    seq![
        ("minecraft:ender_chest"@, "minecraft:ender_chest"@),
        ("minecraft:enchanting_table"@, "minecraft:enchanting_table"@),
        ("minecraft:daylight_detector"@, "minecraft:daylight_detector"@),
        ("minecraft:conduit"@, "minecraft:conduit"@),
        ("minecraft:end_portal"@, "minecraft:end_portal"@),
        ("minecraft:beacon"@, "minecraft:beacon"@),
        ("minecraft:campfire"@, "minecraft:campfire"@),
        ("minecraft:soul_campfire"@, "minecraft:campfire"@),
        ("minecraft:jukebox"@, "minecraft:jukebox"@),
    ]
}

fn synthesized_block_entities() -> (r: Vec<(&'static str, &'static str)>)
    ensures
        table_view(r@) == synthesized_table(),
{
    let r = vec![
        ("minecraft:ender_chest", "minecraft:ender_chest"),
        ("minecraft:enchanting_table", "minecraft:enchanting_table"),
        ("minecraft:daylight_detector", "minecraft:daylight_detector"),
        ("minecraft:conduit", "minecraft:conduit"),
        ("minecraft:end_portal", "minecraft:end_portal"),
        ("minecraft:beacon", "minecraft:beacon"),
        ("minecraft:campfire", "minecraft:campfire"),
        ("minecraft:soul_campfire", "minecraft:campfire"),
        ("minecraft:jukebox", "minecraft:jukebox"),
    ];
    assert(table_view(r@) =~= synthesized_table());
    r
}

/// The block entity that older versions expect at a block: a bed for any `*_bed`,
/// else the one of the table.
pub open spec fn block_entity_for(name: Seq<char>) -> Option<Seq<char>> {
    let bed = "_bed"@;
    if bed.len() <= name.len() && name.subrange(name.len() - bed.len(), name.len() as int) == bed {
        Some("minecraft:bed"@)
    } else {
        key_lookup(synthesized_table(), name)
    }
}

/// The block entity id for a block name (see [`block_entity_for`]).
pub fn block_entity_id_for(block_name: &str) -> (r: Option<&'static str>)
    ensures
        match r {
            Some(id) => block_entity_for(block_name@) == Some(id@),
            None => block_entity_for(block_name@) is None,
        },
{
    if ends_with(block_name, "_bed") {
        return Some("minecraft:bed");
    }
    let table = synthesized_block_entities();
    lookup(&table, block_name)
}

// ---------------------------------------------------------------- palette bits

/// The number of binary digits of `n` (0 for 0).
pub open spec fn bit_len(n: nat) -> nat
    decreases n,
{
    if n == 0 {
        0
    } else {
        1 + bit_len(n / 2)
    }
}

/// The bits per block index in a packed section of a palette of `len` entries: enough
/// for the largest index, and at least 4.
pub open spec fn palette_bits_spec(len: nat) -> nat {
    if len <= 1 {
        4
    } else if bit_len((len - 1) as nat) < 4 {
        4
    } else {
        bit_len((len - 1) as nat)
    }
}

/// Two to the power `k`.
pub open spec fn pow2(k: nat) -> nat
    decreases k,
{
    if k == 0 {
        1
    } else {
        2 * pow2((k - 1) as nat)
    }
}

proof fn lemma_bit_len_bound(n: nat, k: nat)
    requires
        n < pow2(k),
    ensures
        bit_len(n) <= k,
    decreases k,
{
    if n > 0 {
        assert(k > 0);
        lemma_bit_len_bound(n / 2, (k - 1) as nat);
    }
}

proof fn lemma_usize_bits(n: usize)
    ensures
        bit_len(n as nat) <= 64,
{
    assert(pow2(64) == 0x1_0000_0000_0000_0000) by {
        reveal_with_fuel(pow2, 65);
    }
    lemma_bit_len_bound(n as nat, 64);
}

/// The bits per block index (see [`palette_bits_spec`]).
pub fn palette_bits(palette_len: usize) -> (r: usize)
    ensures
        r == palette_bits_spec(palette_len as nat),
{
    if palette_len <= 1 {
        return 4;
    }
    let mut v: usize = palette_len - 1;
    let mut needed: usize = 0;
    proof {
        lemma_usize_bits(v);
    }
    while v > 0
        invariant
            bit_len((palette_len - 1) as nat) == needed + bit_len(v as nat),
            bit_len((palette_len - 1) as nat) <= 64,
        decreases v,
    {
        v = v / 2;
        needed = needed + 1;
    }
    if needed < 4 {
        4
    } else {
        needed
    }
}

// ---------------------------------------------------------------- block entities

/// A block entity's position, when it has int `x`, `y` and `z`.
pub open spec fn be_pos(v: NbtV) -> Option<(i32, i32, i32)> {
    match v {
        NbtV::Compound(m) => match (cget(m, "x"@), cget(m, "y"@), cget(m, "z"@)) {
            (Some(NbtV::Int(x)), Some(NbtV::Int(y)), Some(NbtV::Int(z))) => Some((x, y, z)),
            _ => None,
        },
        _ => None,
    }
}

/// The positions of the block entities of a list, in order.
pub open spec fn positions(l: Seq<NbtV>) -> Seq<(i32, i32, i32)>
    decreases l.len(),
{
    if l.len() == 0 {
        Seq::empty()
    } else {
        let p = positions(l.drop_last());
        match be_pos(l.last()) {
            Some(q) => p.push(q),
            None => p,
        }
    }
}

/// The positions of the chunk's block entities.
pub open spec fn existing_positions(c: Entries) -> Seq<(i32, i32, i32)> {
    match cget(c, "block_entities"@) {
        Some(NbtV::List(l)) => positions(l),
        _ => Seq::empty(),
    }
}

/// The block entity expected for a palette entry.
pub open spec fn target_of(v: NbtV) -> Option<Seq<char>> {
    match v {
        NbtV::Compound(b) => match cget(b, "Name"@) {
            Some(NbtV::String(n)) => block_entity_for(n),
            _ => None,
        },
        _ => None,
    }
}

/// Whether some palette entry expects a block entity.
pub open spec fn has_target(p: Seq<NbtV>) -> bool {
    exists|k: int| 0 <= k < p.len() && #[trigger] target_of(p[k]) is Some
}

/// The palette index of cell `i` (of 4096, x fastest, then z, then y) in the packed
/// `data` longs: index `i % per_long` of long `i / per_long`, `bits` bits each, where
/// `per_long` is `64 / bits`; 0 for every cell when there is no data; none when the
/// long is missing.
pub open spec fn cell_index(data: Option<Seq<i64>>, i: int, bits: nat) -> Option<int> {
    match data {
        None => Some(0),
        Some(ls) => {
            let per_long = 64int / (bits as int);
            let q = i / per_long;
            if q < ls.len() {
                Some(
                    (((ls[q] as u64) >> (((i % per_long) * bits) as u64)) & (((1u64 << (bits as u64))
                        - 1) as u64)) as int,
                )
            } else {
                None
            }
        },
    }
}

/// Whether a coordinate fits an `i32`.
pub open spec fn fits_i32(v: int) -> bool {
    i32::MIN <= v <= i32::MAX
}

/// A synthesized block entity.
pub open spec fn be_compound(id: Seq<char>, x: int, y: int, z: int) -> NbtV {
    NbtV::Compound(
        seq![
            ("id"@, NbtV::String(id)),
            ("x"@, NbtV::Int(x as i32)),
            ("y"@, NbtV::Int(y as i32)),
            ("z"@, NbtV::Int(z as i32)),
            ("keepPacked"@, NbtV::Byte(0)),
        ],
    )
}

/// What cell `i` of a section adds: nothing, a block entity (where its palette entry
/// expects one and none stands at its position yet), or no result when its block
/// coordinates do not fit an `i32`.
#[verifier::opaque]
pub open spec fn cell_entity(
    i: int,
    p: Seq<NbtV>,
    data: Option<Seq<i64>>,
    bits: nat,
    cx: i32,
    sy: int,
    cz: i32,
    existing: Seq<(i32, i32, i32)>,
) -> Option<Option<NbtV>> {
    match cell_index(data, i, bits) {
        None => Some(None),
        Some(pi) => if 0 <= pi < p.len() && target_of(p[pi]) is Some {
            let x = cx * 16 + i % 16;
            let y = sy * 16 + (i / 256) % 16;
            let z = cz * 16 + (i / 16) % 16;
            if !(fits_i32(x) && fits_i32(y) && fits_i32(z)) {
                None
            } else if existing.contains((x as i32, y as i32, z as i32)) {
                Some(None)
            } else {
                Some(Some(be_compound(target_of(p[pi])->0, x, y, z)))
            }
        } else {
            Some(None)
        },
    }
}

/// The block entities added by the first `n` cells of a section, in order.
pub open spec fn cells_upto(
    n: nat,
    p: Seq<NbtV>,
    data: Option<Seq<i64>>,
    bits: nat,
    cx: i32,
    sy: int,
    cz: i32,
    existing: Seq<(i32, i32, i32)>,
) -> Option<Seq<NbtV>>
    decreases n,
{
    if n == 0 {
        Some(Seq::empty())
    } else {
        match cells_upto((n - 1) as nat, p, data, bits, cx, sy, cz, existing) {
            None => None,
            Some(acc) => match cell_entity(n - 1, p, data, bits, cx, sy, cz, existing) {
                None => None,
                Some(None) => Some(acc),
                Some(Some(b)) => Some(acc.push(b)),
            },
        }
    }
}

/// The section's `Y` as a number (a byte or an int).
pub open spec fn section_y(v: Option<NbtV>) -> Option<int> {
    match v {
        Some(NbtV::Byte(y)) => Some(y as int),
        Some(NbtV::Int(y)) => Some(y as int),
        _ => None,
    }
}

/// The packed block data of a section's block states.
pub open spec fn data_of(bs: Entries) -> Option<Seq<i64>> {
    match cget(bs, "data"@) {
        Some(NbtV::LongArray(l)) => Some(l),
        _ => None,
    }
}

/// The block entities a section adds: those of its 4096 cells when it has a `Y`, a
/// palette and a palette entry that expects one; no result where a packed index would
/// need 64 bits or more, or where a coordinate overflows.
pub open spec fn section_entities(sec: NbtV, cx: i32, cz: i32, existing: Seq<(i32, i32, i32)>) -> Option<Seq<NbtV>> {
    match sec {
        NbtV::Compound(s) => match section_y(cget(s, "Y"@)) {
            Some(sy) => match cget(s, "block_states"@) {
                Some(NbtV::Compound(bs)) => match cget(bs, "palette"@) {
                    Some(NbtV::List(p)) => if !has_target(p) {
                        Some(Seq::empty())
                    } else if palette_bits_spec(p.len()) >= 64 {
                        None
                    } else {
                        cells_upto(4096, p, data_of(bs), palette_bits_spec(p.len()), cx, sy, cz, existing)
                    },
                    _ => Some(Seq::empty()),
                },
                _ => Some(Seq::empty()),
            },
            None => Some(Seq::empty()),
        },
        _ => Some(Seq::empty()),
    }
}

/// The block entities all sections add, section by section.
pub open spec fn sections_entities(secs: Seq<NbtV>, cx: i32, cz: i32, existing: Seq<(i32, i32, i32)>) -> Option<Seq<NbtV>>
    decreases secs.len(),
{
    if secs.len() == 0 {
        Some(Seq::empty())
    } else {
        match sections_entities(secs.drop_last(), cx, cz, existing) {
            None => None,
            Some(acc) => match section_entities(secs.last(), cx, cz, existing) {
                None => None,
                Some(more) => Some(acc + more),
            },
        }
    }
}

/// The chunk with the added block entities appended to its `block_entities` list (a
/// new list where there is none), and their number. Nothing is added to a chunk
/// without int `xPos`/`zPos` or without a `sections` list. No result where a section
/// has none.
pub open spec fn ensure_spec(c: Entries) -> Option<(Entries, nat)> {
    match (cget(c, "xPos"@), cget(c, "zPos"@)) {
        (Some(NbtV::Int(cx)), Some(NbtV::Int(cz))) => match cget(c, "sections"@) {
            Some(NbtV::List(secs)) => match sections_entities(secs, cx, cz, existing_positions(c)) {
                None => None,
                Some(added) => Some(
                    (
                        if added.len() == 0 {
                            c
                        } else {
                            match cget(c, "block_entities"@) {
                                Some(NbtV::List(l)) => cins(c, "block_entities"@, NbtV::List(l + added)),
                                _ => cins(c, "block_entities"@, NbtV::List(added)),
                            }
                        },
                        added.len(),
                    ),
                ),
            },
            _ => Some((c, 0)),
        },
        _ => Some((c, 0)),
    }
}

fn positions_exec(l: &Vec<Nbt>) -> (r: Vec<(i32, i32, i32)>)
    ensures
        r@ == positions(lv(l@)),
{
    let ghost orig = lv(l@);
    let n = l.len();
    let mut out: Vec<(i32, i32, i32)> = Vec::new();
    let mut i: usize = 0;
    proof {
        lemma_lv(l@);
        assert(orig.take(0) =~= Seq::<NbtV>::empty());
    }
    while i < n
        invariant
            n == l@.len() == orig.len(),
            orig == lv(l@),
            i <= n,
            out@ == positions(orig.take(i as int)),
        decreases n - i,
    {
        proof {
            lemma_lv(l@);
            assert(orig.take(i + 1).drop_last() =~= orig.take(i as int));
            assert(orig.take(i + 1).last() == nv(l@[i as int]));
        }
        match &l[i] {
            Nbt::Compound(m) => match (get(m, "x"), get(m, "y"), get(m, "z")) {
                (Some(Nbt::Int(x)), Some(Nbt::Int(y)), Some(Nbt::Int(z))) => out.push((*x, *y, *z)),
                _ => {},
            },
            _ => {},
        }
        i = i + 1;
    }
    assert(orig.take(n as int) =~= orig);
    out
}

fn contains_pos(v: &Vec<(i32, i32, i32)>, p: (i32, i32, i32)) -> (r: bool)
    ensures
        r == v@.contains(p),
{
    let n = v.len();
    let mut i: usize = 0;
    while i < n
        invariant
            n == v@.len(),
            i <= n,
            forall|j: int| 0 <= j < i ==> v@[j] != p,
        decreases n - i,
    {
        let q = v[i];
        if q.0 == p.0 && q.1 == p.1 && q.2 == p.2 {
            assert(v@[i as int] == p);
            return true;
        }
        i = i + 1;
    }
    false
}

fn target_of_exec(v: &Nbt) -> (r: Option<&'static str>)
    ensures
        match r {
            Some(id) => target_of(nv(*v)) == Some(id@),
            None => target_of(nv(*v)) is None,
        },
{
    match v {
        Nbt::Compound(b) => match get(b, "Name") {
            Some(Nbt::String(n)) => block_entity_id_for(n.as_str()),
            _ => None,
        },
        _ => None,
    }
}

proof fn lemma_mask(bits: u64)
    by (bit_vector)
    requires
        bits < 64,
    ensures
        (1u64 << bits) >= 1,
{
}

proof fn lemma_shift_bound(i: int, per_long: int, bits: int)
    by (nonlinear_arith)
    requires
        4 <= bits < 64,
        per_long == 64int / bits,
        0 <= i,
    ensures
        0 <= (i % per_long) * bits < 64,
        per_long >= 1,
{
    assert(per_long * bits <= 64);
    assert(i % per_long <= per_long - 1);
}

fn be_exec(id: &'static str, x: i32, y: i32, z: i32) -> (r: Nbt)
    ensures
        nv(r) == be_compound(id@, x as int, y as int, z as int),
{
    let m = vec![
        (string_of("id"), Nbt::String(string_of(id))),
        (string_of("x"), Nbt::Int(x)),
        (string_of("y"), Nbt::Int(y)),
        (string_of("z"), Nbt::Int(z)),
        (string_of("keepPacked"), Nbt::Byte(0)),
    ];
    proof {
        lemma_cv(m@);
        assert(cv(m@) =~= seq![
            ("id"@, NbtV::String(id@)),
            ("x"@, NbtV::Int(x)),
            ("y"@, NbtV::Int(y)),
            ("z"@, NbtV::Int(z)),
            ("keepPacked"@, NbtV::Byte(0)),
        ]);
    }
    Nbt::Compound(m)
}

fn cell_exec(
    i: usize,
    targets: &Vec<Option<&'static str>>,
    Ghost(pv): Ghost<Seq<NbtV>>,
    data: Option<&Vec<i64>>,
    Ghost(dv): Ghost<Option<Seq<i64>>>,
    bits: usize,
    per_long: usize,
    mask: u64,
    cx: i32,
    sy: i64,
    cz: i32,
    existing: &Vec<(i32, i32, i32)>,
) -> (r: Option<Option<Nbt>>)
    requires
        i < 4096,
        targets@.len() == pv.len(),
        forall|j: int| 0 <= j < pv.len() ==> match #[trigger] targets@[j] {
            Some(id) => target_of(pv[j]) == Some(id@),
            None => target_of(pv[j]) is None,
        },
        4 <= bits < 64,
        per_long == 64usize / bits,
        mask == ((1u64 << (bits as u64)) - 1) as u64,
        dv == match data {
            Some(l) => Some(l@),
            None => None::<Seq<i64>>,
        },
        i32::MIN <= sy <= i32::MAX,
    ensures
        match r {
            None => cell_entity(i as int, pv, dv, bits as nat, cx, sy as int, cz, existing@) is None,
            Some(None) => cell_entity(i as int, pv, dv, bits as nat, cx, sy as int, cz, existing@) == Some(
                None::<NbtV>,
            ),
            Some(Some(b)) => cell_entity(i as int, pv, dv, bits as nat, cx, sy as int, cz, existing@)
                == Some(Some(nv(b))),
        },
{
    proof {
        reveal(cell_entity);
        lemma_shift_bound(i as int, per_long as int, bits as int);
    }
    let pi: Option<u64> = match data {
        None => Some(0),
        Some(ls) => {
            let q = i / per_long;
            if q < ls.len() {
                let shift: u64 = ((i % per_long) * bits) as u64;
                Some(((ls[q] as u64) >> shift) & mask)
            } else {
                None
            }
        },
    };
    assert(match pi {
        Some(x) => cell_index(dv, i as int, bits as nat) == Some(x as int),
        None => cell_index(dv, i as int, bits as nat) is None,
    });
    let idx = match pi {
        Some(idx) => idx,
        None => return Some(None),
    };
    if idx >= targets.len() as u64 {
        return Some(None);
    }
    let id = match targets[idx as usize] {
        Some(id) => id,
        None => return Some(None),
    };
    let x: i64 = cx as i64 * 16 + (i % 16) as i64;
    let y: i64 = sy * 16 + ((i / 256) % 16) as i64;
    let z: i64 = cz as i64 * 16 + ((i / 16) % 16) as i64;
    if x < i32::MIN as i64 || x > i32::MAX as i64 || y < i32::MIN as i64 || y > i32::MAX as i64 || z
        < i32::MIN as i64 || z > i32::MAX as i64 {
        return None;
    }
    let pos = (x as i32, y as i32, z as i32);
    if contains_pos(existing, pos) {
        return Some(None);
    }
    Some(Some(be_exec(id, x as i32, y as i32, z as i32)))
}

fn section_entities_exec(sec: &Nbt, cx: i32, cz: i32, existing: &Vec<(i32, i32, i32)>, out: &mut Vec<Nbt>) -> (ok: bool)
    ensures
        match section_entities(nv(*sec), cx, cz, existing@) {
            None => !ok,
            Some(cells) => ok && lv(final(out)@) == lv(old(out)@) + cells,
        },
{
    let ghost out0 = lv(out@);
    let s = match sec {
        Nbt::Compound(s) => s,
        _ => {
            assert(lv(out@) =~= out0 + Seq::<NbtV>::empty());
            return true;
        },
    };
    let sy: i64 = match get(s, "Y") {
        Some(Nbt::Byte(y)) => *y as i64,
        Some(Nbt::Int(y)) => *y as i64,
        _ => {
            assert(lv(out@) =~= out0 + Seq::<NbtV>::empty());
            return true;
        },
    };
    let bs = match get(s, "block_states") {
        Some(Nbt::Compound(bs)) => bs,
        _ => {
            assert(lv(out@) =~= out0 + Seq::<NbtV>::empty());
            return true;
        },
    };
    let p = match get(bs, "palette") {
        Some(Nbt::List(p)) => p,
        _ => {
            assert(lv(out@) =~= out0 + Seq::<NbtV>::empty());
            return true;
        },
    };
    let ghost pv = lv(p@);
    proof {
        lemma_lv(p@);
    }
    let mut targets: Vec<Option<&'static str>> = Vec::new();
    let mut any = false;
    let np = p.len();
    let mut k: usize = 0;
    while k < np
        invariant
            np == p@.len() == pv.len(),
            pv == lv(p@),
            k <= np,
            targets@.len() == k,
            forall|j: int| 0 <= j < k ==> match #[trigger] targets@[j] {
                Some(id) => target_of(pv[j]) == Some(id@),
                None => target_of(pv[j]) is None,
            },
            any == (exists|j: int| 0 <= j < k && #[trigger] target_of(pv[j]) is Some),
        decreases np - k,
    {
        proof {
            lemma_lv(p@);
        }
        let t = target_of_exec(&p[k]);
        if t.is_some() {
            any = true;
        }
        targets.push(t);
        proof {
            assert(targets@[k as int] == t);
            if t is Some {
                assert(target_of(pv[k as int]) is Some);
            }
        }
        k = k + 1;
    }
    if !any {
        assert(lv(out@) =~= out0 + Seq::<NbtV>::empty());
        return true;
    }
    let bits = palette_bits(np);
    if bits >= 64 {
        return false;
    }
    let per_long: usize = 64 / bits;
    proof {
        lemma_mask(bits as u64);
    }
    let mask: u64 = (1u64 << (bits as u64)) - 1;
    let data: Option<&Vec<i64>> = match get(bs, "data") {
        Some(Nbt::LongArray(l)) => Some(l),
        _ => None,
    };
    let ghost dv: Option<Seq<i64>> = match data {
        Some(l) => Some(l@),
        None => None,
    };
    assert(dv == data_of(cv(bs@)));
    let mut i: usize = 0;
    assert(cells_upto(0, pv, dv, bits as nat, cx, sy as int, cz, existing@) == Some(Seq::<NbtV>::empty()));
    assert(lv(out@) =~= out0 + Seq::<NbtV>::empty());
    assert(has_target(pv));
    assert(section_entities(nv(*sec), cx, cz, existing@) == cells_upto(
        4096,
        pv,
        dv,
        bits as nat,
        cx,
        sy as int,
        cz,
        existing@,
    ));
    while i < 4096
        invariant
            i <= 4096,
            np == p@.len() == pv.len(),
            pv == lv(p@),
            targets@.len() == np,
            forall|j: int| 0 <= j < np ==> match #[trigger] targets@[j] {
                Some(id) => target_of(pv[j]) == Some(id@),
                None => target_of(pv[j]) is None,
            },
            4 <= bits < 64,
            bits == palette_bits_spec(np as nat),
            per_long == 64usize / bits,
            mask == ((1u64 << (bits as u64)) - 1) as u64,
            dv == match data {
                Some(l) => Some(l@),
                None => None::<Seq<i64>>,
            },
            cells_upto(i as nat, pv, dv, bits as nat, cx, sy as int, cz, existing@) matches Some(acc)
                && lv(out@) == out0 + acc,
            i32::MIN <= sy <= i32::MAX,
            section_entities(nv(*sec), cx, cz, existing@) == cells_upto(
                4096,
                pv,
                dv,
                bits as nat,
                cx,
                sy as int,
                cz,
                existing@,
            ),
        decreases 4096 - i,
    {
        let ghost acc = cells_upto(i as nat, pv, dv, bits as nat, cx, sy as int, cz, existing@)->0;
        match cell_exec(i, &targets, Ghost(pv), data, Ghost(dv), bits, per_long, mask, cx, sy, cz, existing) {
            None => {
                proof {
                    lemma_cells_none((i + 1) as nat, 4096, pv, dv, bits as nat, cx, sy as int, cz, existing@);
                }
                return false;
            },
            Some(None) => {},
            Some(Some(b)) => {
                let ghost before = out@;
                out.push(b);
                proof {
                    lemma_lv(out@);
                    lemma_lv(before);
                    assert(lv(out@) =~= lv(before).push(nv(b)));
                    assert(out0 + acc.push(nv(b)) =~= (out0 + acc).push(nv(b)));
                }
            },
        }
        i = i + 1;
    }
    true
}

/// Adds the block entities that older versions expect next to certain blocks and
/// returns how many were added (see [`ensure_spec`]).
pub fn ensure_block_entities(map: &mut Vec<(String, Nbt)>) -> (r: u64)
    requires
        ensure_spec(cv(old(map)@)) is Some,
    ensures
        ensure_spec(cv(old(map)@)) == Some((cv(final(map)@), r as nat)),
{
    match try_ensure_block_entities(map) {
        Some(k) => k,
        None => 0,
    }
}

/// Adds the block entities as [`ensure_block_entities`] does where that can be done:
/// `None`, with the chunk unchanged, exactly where [`ensure_spec`] has no result (a
/// block position out of the 32-bit range, or a palette too large for its indices).
pub(crate) fn try_ensure_block_entities(map: &mut Vec<(String, Nbt)>) -> (r: Option<u64>)
    ensures
        r is Some == ensure_spec(cv(old(map)@)) is Some,
        r matches Some(k) ==> ensure_spec(cv(old(map)@)) == Some((cv(final(map)@), k as nat)),
        r is None ==> final(map)@ == old(map)@,
{
    let ghost c0 = map@;
    let (cx, cz) = match (get(map, "xPos"), get(map, "zPos")) {
        (Some(Nbt::Int(x)), Some(Nbt::Int(z))) => (*x, *z),
        _ => return Some(0),
    };
    let existing = match get(map, "block_entities") {
        Some(Nbt::List(l)) => positions_exec(l),
        _ => Vec::new(),
    };
    assert(existing@ == existing_positions(cv(c0)));
    let mut added: Vec<Nbt> = Vec::new();
    match get(map, "sections") {
        Some(Nbt::List(secs)) => {
            let ghost sv = lv(secs@);
            let n = secs.len();
            let mut i: usize = 0;
            proof {
                lemma_lv(secs@);
                lemma_lv(added@);
                assert(sv.take(0) =~= Seq::<NbtV>::empty());
                assert(lv(added@) =~= Seq::<NbtV>::empty());
            }
            while i < n
                invariant
                    n == secs@.len() == sv.len(),
                    sv == lv(secs@),
                    i <= n,
                    sections_entities(sv.take(i as int), cx, cz, existing@) == Some(lv(added@)),
                    c0 == old(map)@,
                    map@ == c0,
                    cget(cv(c0), "sections"@) == Some(NbtV::List(sv)),
                    cget(cv(c0), "xPos"@) == Some(NbtV::Int(cx)),
                    cget(cv(c0), "zPos"@) == Some(NbtV::Int(cz)),
                    existing@ == existing_positions(cv(c0)),
                decreases n - i,
            {
                proof {
                    lemma_lv(secs@);
                    assert(sv.take(i + 1).drop_last() =~= sv.take(i as int));
                    assert(sv.take(i + 1).last() == nv(secs@[i as int]));
                    if sections_entities(sv, cx, cz, existing@) is Some {
                        lemma_sections_some(sv, cx, cz, existing@, i + 1);
                    }
                }
                let ok = section_entities_exec(&secs[i], cx, cz, &existing, &mut added);
                if !ok {
                    return None;
                }
                i = i + 1;
            }
            assert(sv.take(n as int) =~= sv);
        },
        _ => {
            assert(lv(added@) =~= Seq::<NbtV>::empty());
            return Some(0);
        },
    }
    proof {
        lemma_lv(added@);
    }
    let count = added.len() as u64;
    if added.len() > 0 {
        match take(map, "block_entities") {
            Some((k, Nbt::List(mut l))) => {
                let ghost l0 = l@;
                let ghost a0 = added@;
                l.append(&mut added);
                proof {
                    lemma_lv(l@);
                    lemma_lv(l0);
                    lemma_lv(a0);
                    assert(lv(l@) =~= lv(l0) + lv(a0));
                }
                restore(map, k, Nbt::List(l), Ghost(c0), Ghost("block_entities"@));
            },
            Some((k, _)) => {
                restore(map, k, Nbt::List(added), Ghost(c0), Ghost("block_entities"@));
            },
            None => {
                insert(map, "block_entities", Nbt::List(added));
            },
        }
    }
    Some(count)
}

/// Once a cell has no result, no longer run of cells has one.
proof fn lemma_cells_none(
    n: nat,
    m: nat,
    p: Seq<NbtV>,
    data: Option<Seq<i64>>,
    bits: nat,
    cx: i32,
    sy: int,
    cz: i32,
    existing: Seq<(i32, i32, i32)>,
)
    requires
        n <= m,
        cells_upto(n, p, data, bits, cx, sy, cz, existing) is None,
    ensures
        cells_upto(m, p, data, bits, cx, sy, cz, existing) is None,
    decreases m - n,
{
    if n < m {
        lemma_cells_none(n, (m - 1) as nat, p, data, bits, cx, sy, cz, existing);
    }
}

/// A prefix of sections with a result has one.
proof fn lemma_sections_some(secs: Seq<NbtV>, cx: i32, cz: i32, existing: Seq<(i32, i32, i32)>, i: int)
    requires
        0 <= i <= secs.len(),
        sections_entities(secs, cx, cz, existing) is Some,
    ensures
        sections_entities(secs.take(i), cx, cz, existing) is Some,
    decreases secs.len(),
{
    if i < secs.len() {
        assert(secs.drop_last().take(i) =~= secs.take(i));
        lemma_sections_some(secs.drop_last(), cx, cz, existing, i);
    } else {
        assert(secs.take(i) =~= secs);
    }
}

// ---------------------------------------------------------------- light data

/// A section without its block and sky light arrays.
pub open spec fn strip_section(v: NbtV) -> NbtV {
    match v {
        NbtV::Compound(m) => NbtV::Compound(crem(crem(m, "BlockLight"@), "SkyLight"@)),
        _ => v,
    }
}

/// A chunk without `isLightOn` and without the light arrays of its sections, which
/// older versions recompute.
pub open spec fn strip_spec(c: Entries) -> Entries {
    let c1 = crem(c, "isLightOn"@);
    match cget(c1, "sections"@) {
        Some(NbtV::List(secs)) => cins(
            c1,
            "sections"@,
            NbtV::List(Seq::new(secs.len(), |i: int| strip_section(secs[i]))),
        ),
        _ => c1,
    }
}

/// Removes the light data (see [`strip_spec`]).
pub fn strip_light_data(map: &mut Vec<(String, Nbt)>)
    ensures
        cv(final(map)@) == strip_spec(cv(old(map)@)),
{
    if !contains_key(map, "sections") && !contains_key(map, "isLightOn") {
        return ;
    }
    remove(map, "isLightOn");
    let ghost c1 = map@;
    match take(map, "sections") {
        Some((k, Nbt::List(mut secs))) => {
            let ghost orig = lv(secs@);
            let n = secs.len();
            let mut i: usize = 0;
            proof {
                lemma_lv(secs@);
            }
            while i < n
                invariant
                    n == secs@.len() == orig.len(),
                    i <= n,
                    forall|j: int| 0 <= j < i ==> #[trigger] nv(secs@[j]) == strip_section(orig[j]),
                    forall|j: int| i <= j < n ==> #[trigger] nv(secs@[j]) == orig[j],
                decreases n - i,
            {
                let ghost before = secs@;
                let s = list_take(&mut secs, i);
                let ghost sv = nv(s);
                assert(sv == orig[i as int]);
                let s2 = match s {
                    Nbt::Compound(mut m) => {
                        remove(&mut m, "BlockLight");
                        remove(&mut m, "SkyLight");
                        Nbt::Compound(m)
                    },
                    other => other,
                };
                assert(nv(s2) == strip_section(sv));
                secs.set(i, s2);
                proof {
                    assert(secs@ =~= before.update(i as int, s2));
                    assert forall|j: int| 0 <= j < i + 1 implies #[trigger] nv(secs@[j]) == strip_section(orig[j]) by {
                        if j < i {
                            assert(secs@[j] == before[j]);
                        }
                    }
                }
                i = i + 1;
            }
            proof {
                lemma_lv(secs@);
                assert(lv(secs@) =~= Seq::new(orig.len(), |i: int| strip_section(orig[i])));
            }
            restore(map, k, Nbt::List(secs), Ghost(c1), Ghost("sections"@));
        },
        Some((k, other)) => {
            proof {
                lemma_cins_same(cv(c1), "sections"@);
            }
            restore(map, k, other, Ghost(c1), Ghost("sections"@));
        },
        None => {},
    }
}

/// A section whose keys are unique keeps no light array after stripping, and keeps
/// every other entry.
pub proof fn lemma_light_stripped(m: Entries, k: Seq<char>)
    requires
        crate::nbt::unique_keys(m),
        k != "BlockLight"@,
        k != "SkyLight"@,
    ensures
        strip_section(NbtV::Compound(m)) matches NbtV::Compound(m2) && cget(m2, "BlockLight"@) is None && cget(
            m2,
            "SkyLight"@,
        ) is None && cget(m2, k) == cget(m, k),
{
    reveal_strlit("BlockLight");
    reveal_strlit("SkyLight");
    assert("BlockLight"@.len() == 10 && "SkyLight"@.len() == 8);
    let m1 = crem(m, "BlockLight"@);
    crate::nbt::lemma_cget_crem_same(m, "BlockLight"@);
    crate::nbt::lemma_crem_unique(m, "BlockLight"@);
    crate::nbt::lemma_cget_crem_same(m1, "SkyLight"@);
    crate::nbt::lemma_cget_crem_other(m1, "SkyLight"@, "BlockLight"@);
    crate::nbt::lemma_cget_crem_other(m, "BlockLight"@, k);
    crate::nbt::lemma_cget_crem_other(m1, "SkyLight"@, k);
}

/// A section keeps no light array.
pub open spec fn lightless(v: NbtV) -> bool {
    v matches NbtV::Compound(m) ==> cget(m, "BlockLight"@) is None && cget(m, "SkyLight"@) is None
}

/// After [`strip_light_data`] a chunk whose keys are unique has no `isLightOn`, and each
/// section whose keys are unique keeps no light array.
pub proof fn lemma_chunk_light_stripped(c: Entries)
    requires
        crate::nbt::unique_keys(c),
    ensures
        cget(strip_spec(c), "isLightOn"@) is None,
        cget(c, "sections"@) matches Some(NbtV::List(secs)) ==> cget(strip_spec(c), "sections"@) matches Some(
            NbtV::List(s2),
        ) && s2.len() == secs.len() && forall|k: int|
            0 <= k < secs.len() ==> (secs[k] matches NbtV::Compound(m) && crate::nbt::unique_keys(m)
                ==> lightless(#[trigger] s2[k])),
{
    reveal_strlit("isLightOn");
    reveal_strlit("sections");
    assert("isLightOn"@.len() == 9 && "sections"@.len() == 8);
    let c1 = crem(c, "isLightOn"@);
    crate::nbt::lemma_cget_crem_same(c, "isLightOn"@);
    crate::nbt::lemma_cget_crem_other(c, "isLightOn"@, "sections"@);
    match cget(c1, "sections"@) {
        Some(NbtV::List(secs)) => {
            let s2 = Seq::new(secs.len(), |i: int| strip_section(secs[i]));
            crate::nbt::lemma_cget_cins_other(c1, "sections"@, NbtV::List(s2), "isLightOn"@);
            crate::nbt::lemma_cget_cins_same(c1, "sections"@, NbtV::List(s2));
            assert forall|k: int| 0 <= k < secs.len() implies (secs[k] matches NbtV::Compound(m)
                && crate::nbt::unique_keys(m) ==> lightless(#[trigger] s2[k])) by {
                match secs[k] {
                    NbtV::Compound(m) => if crate::nbt::unique_keys(m) {
                        reveal_strlit("Y");
                        reveal_strlit("BlockLight");
                        reveal_strlit("SkyLight");
                        assert("Y"@.len() == 1 && "BlockLight"@.len() == 10 && "SkyLight"@.len() == 8);
                        lemma_light_stripped(m, "Y"@);
                    },
                    _ => {},
                }
            }
        },
        _ => {},
    }
}

// ---------------------------------------------------------------- one chunk

/// The rules applied to a chunk compound: `DataVersion` set to the target, the block
/// allowlist (when there is one), the downgrade, the light data removed and the block
/// entities added; with the numbers of blocks replaced and block entities added. No
/// result where the downgrade or the block entities have none.
pub open spec fn chunk_rules(c: Entries, dv: i32, allowed: Option<Set<Seq<char>>>, t: Tally) -> Option<(Entries, nat, Tally, nat)> {
    let c1 = cins(c, "DataVersion"@, NbtV::Int(dv));
    let (c2, n) = match allowed {
        Some(a) => filter_spec(c1, a),
        None => (c1, 0),
    };
    match downgrade_spec(c2, dv, t) {
        None => None,
        Some((c3, t3)) => match ensure_spec(strip_spec(c3)) {
            None => None,
            Some((c5, k)) => Some((c5, n, t3, k)),
        },
    }
}

/// The chunk rules keep a chunk free of repeated keys.
pub proof fn lemma_chunk_rules_keep_unique_keys(c: Entries, dv: i32, allowed: Option<Set<Seq<char>>>, t: Tally)
    requires
        crate::nbt::unique_keys(c),
    ensures
        chunk_rules(c, dv, allowed, t) matches Some((c5, _, _, _)) ==> crate::nbt::unique_keys(c5),
{
    broadcast use crate::nbt::lemma_cins_keeps_unique, crate::nbt::lemma_crem_keeps_unique;
    let c1 = cins(c, "DataVersion"@, NbtV::Int(dv));
    let (c2, n) = match allowed {
        Some(a) => filter_spec(c1, a),
        None => (c1, 0),
    };
    assert(crate::nbt::unique_keys(c2));
    crate::downgrade::lemma_downgrade_keeps_unique_keys(c2, dv, t);
    match downgrade_spec(c2, dv, t) {
        Some((c3, _)) => {
            assert(crate::nbt::unique_keys(strip_spec(c3)));
        },
        None => {},
    }
}

/// The allowlist of an optional table.
pub open spec fn allowed_of(table: Option<&BlockTable>) -> Option<Set<Seq<char>>> {
    match table {
        Some(t) => Some(t@),
        None => None,
    }
}

/// Whether the rules can be applied to a chunk with the report's counters.
pub open spec fn chunk_fits(v: NbtV, dv: i32, allowed: Option<Set<Seq<char>>>, r: Report) -> bool {
    &&& r.chunks_rewritten < u64::MAX
    &&& v matches NbtV::Compound(c) ==> chunk_rules(c, dv, allowed, tally(r)) matches Some(
        (_, n, t, k),
    ) && fits(t) && r.blocks_replaced + n <= u64::MAX && r.block_entities_added + k <= u64::MAX
}

/// `after` and `out` are what rewriting the chunk `v` gives from `before`: the chunk
/// counted as rewritten, with the blocks it replaced, the item stacks and data of the
/// downgrade and the block entities added (a chunk that is no compound is kept as it
/// is).
pub open spec fn chunk_rewritten(
    v: NbtV,
    dv: i32,
    allowed: Option<Set<Seq<char>>>,
    before: Report,
    after: Report,
    out: NbtV,
) -> bool {
    &&& after.chunks_rewritten == before.chunks_rewritten + 1
    &&& after.region_files == before.region_files
    &&& after.chunks_skipped == before.chunks_skipped
    &&& match v {
        NbtV::Compound(c) => chunk_rules(c, dv, allowed, tally(before)) == Some(
            (
                match out {
                    NbtV::Compound(m) => m,
                    _ => Seq::empty(),
                },
                (after.blocks_replaced - before.blocks_replaced) as nat,
                tally(after),
                (after.block_entities_added - before.block_entities_added) as nat,
            ),
        ) && out is Compound,
        _ => out == v && tally(after) == tally(before) && after.blocks_replaced == before.blocks_replaced
            && after.block_entities_added == before.block_entities_added,
    }
}

/// Rewrites one chunk for the target data version (see [`chunk_rules`] and
/// [`chunk_rewritten`]).
pub fn rewrite_chunk(value: Nbt, target_data_version: i32, table: Option<&BlockTable>, report: &mut Report) -> (r: Nbt)
    requires
        chunk_fits(nv(value), target_data_version, allowed_of(table), *old(report)),
    ensures
        chunk_rewritten(nv(value), target_data_version, allowed_of(table), *old(report), *final(report), nv(r)),
{
    match try_rewrite_chunk(value, target_data_version, table, report) {
        Some(out) => out,
        None => Nbt::Compound(Vec::new()),
    }
}

/// Rewrites one chunk as [`rewrite_chunk`] does where the rules can be applied, and
/// gives `None` exactly where they cannot ([`chunk_fits`] does not hold: the rules
/// have no result for the chunk, or a counter of the report would overflow). The
/// report is then left part-way.
pub fn try_rewrite_chunk(value: Nbt, target_data_version: i32, table: Option<&BlockTable>, report: &mut Report) -> (r: Option<Nbt>)
    ensures
        r is Some == chunk_fits(nv(value), target_data_version, allowed_of(table), *old(report)),
        r matches Some(out) ==> chunk_rewritten(
            nv(value),
            target_data_version,
            allowed_of(table),
            *old(report),
            *final(report),
            nv(out),
        ),
{
    if report.chunks_rewritten == u64::MAX {
        return None;
    }
    let ghost r0 = *report;
    let out = match value {
        Nbt::Compound(mut map) => {
            insert(&mut map, "DataVersion", Nbt::Int(target_data_version));
            let n: u64 = match table {
                Some(t) => match try_filter_chunk_blocks(&mut map, t) {
                    Some(n) => n,
                    None => {
                        return None;
                    },
                },
                None => 0,
            };
            if !try_downgrade_compound(&mut map, target_data_version, report) {
                return None;
            }
            strip_light_data(&mut map);
            let k = match try_ensure_block_entities(&mut map) {
                Some(k) => k,
                None => {
                    return None;
                },
            };
            if report.blocks_replaced > u64::MAX - n || report.block_entities_added > u64::MAX - k {
                return None;
            }
            report.blocks_replaced = report.blocks_replaced + n;
            report.block_entities_added = report.block_entities_added + k;
            Nbt::Compound(map)
        },
        other => other,
    };
    report.chunks_rewritten = report.chunks_rewritten + 1;
    Some(out)
}

/// What became of one chunk of a region file.
pub enum ChunkStep {
    /// Its NBT could not be read: skipped, counted and reported.
    Skipped,
    /// The rewritten chunk.
    Rewritten(Nbt),
    /// The rules cannot be applied to it, or a counter of the report would overflow.
    Refused,
}

/// A decoded chunk, or the decoder's message, as plain values.
pub open spec fn decoded_view(d: Result<Nbt, String>) -> Result<NbtV, Seq<char>> {
    match d {
        Ok(v) => Ok(nv(v)),
        Err(m) => Err(m@),
    }
}

/// The warning for a chunk whose NBT could not be read.
pub open spec fn invalid_chunk_warning(path: Seq<char>, x: u64, z: u64, error: Seq<char>) -> Seq<char> {
    path + " ("@ + crate::text::nat_decimal(x as nat) + ", "@ + crate::text::nat_decimal(z as nat)
        + "): skipped a chunk with invalid NBT ("@ + error + ")."@
}

/// `step` and `after` are what one chunk at (`x`, `z`) of the region file `path` comes
/// to from `before`, given what decoding its bytes gave: a chunk that could not be
/// decoded is skipped with a warning, a decoded one is rewritten (see
/// [`chunk_rewritten`]); it is refused where a counter would overflow or the rules
/// cannot be applied.
pub open spec fn chunk_step_spec(
    decoded: Result<NbtV, Seq<char>>,
    x: u64,
    z: u64,
    path: Seq<char>,
    dv: i32,
    allowed: Option<Set<Seq<char>>>,
    before: Report,
    after: Report,
    step: ChunkStep,
) -> bool {
    match decoded {
        Err(m) => if before.chunks_skipped < u64::MAX {
            &&& step is Skipped
            &&& after.chunks_skipped == before.chunks_skipped + 1
            &&& crate::report::warnings_of(after) == crate::report::warnings_of(before).push(
                invalid_chunk_warning(path, x, z, m),
            )
            &&& after.region_files == before.region_files
            &&& after.chunks_rewritten == before.chunks_rewritten
            &&& after.blocks_replaced == before.blocks_replaced
            &&& after.items_converted == before.items_converted
            &&& after.dropped_data == before.dropped_data
            &&& after.block_entities_added == before.block_entities_added
        } else {
            step is Refused
        },
        Ok(v) => if chunk_fits(v, dv, allowed, before) {
            step matches ChunkStep::Rewritten(out) && chunk_rewritten(v, dv, allowed, before, after, nv(out))
        } else {
            step is Refused
        },
    }
}

/// Handles one chunk of a region file given what decoding its bytes gave (see
/// [`chunk_step_spec`]).
pub fn rewrite_decoded_chunk(
    decoded: Result<Nbt, String>,
    x: u64,
    z: u64,
    path: &str,
    target_data_version: i32,
    table: Option<&BlockTable>,
    report: &mut Report,
) -> (r: ChunkStep)
    ensures
        chunk_step_spec(
            decoded_view(decoded),
            x,
            z,
            path@,
            target_data_version,
            allowed_of(table),
            *old(report),
            *final(report),
            r,
        ),
{
    match decoded {
        Err(m) => {
            if report.chunks_skipped == u64::MAX {
                return ChunkStep::Refused;
            }
            skip_invalid_chunk(report, path, x, z, m.as_str());
            ChunkStep::Skipped
        },
        Ok(v) => match try_rewrite_chunk(v, target_data_version, table, report) {
            Some(out) => ChunkStep::Rewritten(out),
            None => ChunkStep::Refused,
        },
    }
}

/// Decodes the bytes of one chunk of a region file with fastnbt and handles it as
/// [`rewrite_decoded_chunk`] does; the decoded value is fastnbt's, so the contract
/// holds of whatever the decoder gave.
pub fn rewrite_chunk_bytes(
    data: &[u8],
    x: u64,
    z: u64,
    path: &str,
    target_data_version: i32,
    table: Option<&BlockTable>,
    report: &mut Report,
) -> (r: ChunkStep)
    ensures
        r matches ChunkStep::Rewritten(out) ==> (nv(out) matches NbtV::Compound(m) ==> crate::nbt::unique_keys(m)),
        exists|d: Result<NbtV, Seq<char>>|
            chunk_step_spec(
                d,
                x,
                z,
                path@,
                target_data_version,
                allowed_of(table),
                *old(report),
                *final(report),
                r,
            ),
{
    let decoded: Result<Nbt, String> = match decode_nbt(data, path) {
        Ok(v) => Ok(v),
        Err(Error::Nbt { message, .. }) => Err(message),
        Err(_) => Err(String::new()),
    };
    let ghost d = decoded_view(decoded);
    let ghost r0 = *report;
    let r = rewrite_decoded_chunk(decoded, x, z, path, target_data_version, table, report);
    proof {
        match d {
            Ok(NbtV::Compound(c)) => {
                lemma_chunk_rules_keep_unique_keys(c, target_data_version, allowed_of(table), tally(r0));
            },
            _ => {},
        }
    }
    assert(chunk_step_spec(d, x, z, path@, target_data_version, allowed_of(table), *old(report), *final(report), r));
    r
}

// ---------------------------------------------------------------- region files

/// Counts a chunk that could not be read and reports it.
pub fn skip_unreadable_chunk(report: &mut Report, path: &str, error: &str)
    requires
        old(report).chunks_skipped < u64::MAX,
    ensures
        final(report).chunks_skipped == old(report).chunks_skipped + 1,
        crate::report::warnings_of(*final(report)) == crate::report::warnings_of(*old(report)).push(
            path@ + ": skipped an unreadable chunk ("@ + error@ + ")."@,
        ),
        final(report).region_files == old(report).region_files,
        final(report).chunks_rewritten == old(report).chunks_rewritten,
        final(report).blocks_replaced == old(report).blocks_replaced,
        final(report).items_converted == old(report).items_converted,
        final(report).dropped_data == old(report).dropped_data,
        final(report).block_entities_added == old(report).block_entities_added,
{
    report.chunks_skipped = report.chunks_skipped + 1;
    let mut w = string_of(path);
    crate::text::append(&mut w, ": skipped an unreadable chunk (");
    crate::text::append(&mut w, error);
    crate::text::append(&mut w, ").");
    report.warn(w);
}

/// Counts a chunk whose data is no valid NBT and reports it with its position.
pub fn skip_invalid_chunk(report: &mut Report, path: &str, x: u64, z: u64, error: &str)
    requires
        old(report).chunks_skipped < u64::MAX,
    ensures
        final(report).chunks_skipped == old(report).chunks_skipped + 1,
        crate::report::warnings_of(*final(report)) == crate::report::warnings_of(*old(report)).push(
            path@ + " ("@ + crate::text::nat_decimal(x as nat) + ", "@ + crate::text::nat_decimal(z as nat)
                + "): skipped a chunk with invalid NBT ("@ + error@ + ")."@,
        ),
        final(report).region_files == old(report).region_files,
        final(report).chunks_rewritten == old(report).chunks_rewritten,
        final(report).blocks_replaced == old(report).blocks_replaced,
        final(report).items_converted == old(report).items_converted,
        final(report).dropped_data == old(report).dropped_data,
        final(report).block_entities_added == old(report).block_entities_added,
{
    report.chunks_skipped = report.chunks_skipped + 1;
    let mut w = string_of(path);
    crate::text::append(&mut w, " (");
    crate::text::append(&mut w, crate::text::u64_to_decimal(x).as_str());
    crate::text::append(&mut w, ", ");
    crate::text::append(&mut w, crate::text::u64_to_decimal(z).as_str());
    crate::text::append(&mut w, "): skipped a chunk with invalid NBT (");
    crate::text::append(&mut w, error);
    crate::text::append(&mut w, ").");
    report.warn(w);
}

/// Reports a region file that could not be opened as one and was skipped.
pub fn skip_corrupt_region(report: &mut Report, path: &str, error: &str)
    ensures
        crate::report::warnings_of(*final(report)) == crate::report::warnings_of(*old(report)).push(
            path@ + ": file is corrupt and was skipped entirely ("@ + error@
                + "). The game may regenerate poi data; region/entity data in it is lost."@,
        ),
        tally(*final(report)).dropped == tally(*old(report)).dropped,
        tally(*final(report)).items == tally(*old(report)).items,
        same_other_counters(*old(report), *final(report)),
{
    let mut w = string_of(path);
    crate::text::append(&mut w, ": file is corrupt and was skipped entirely (");
    crate::text::append(&mut w, error);
    crate::text::append(&mut w, "). The game may regenerate poi data; region/entity data in it is lost.");
    report.warn(w);
}

/// Reports a file of a region folder that is copied without conversion.
pub fn note_copied_unconverted(report: &mut Report, file_name: &str)
    ensures
        crate::report::warnings_of(*final(report)) == crate::report::warnings_of(*old(report)).push(
            "Copied "@ + file_name@ + " without conversion (.mcc oversized chunks are not supported yet)."@,
        ),
        tally(*final(report)).dropped == tally(*old(report)).dropped,
        tally(*final(report)).items == tally(*old(report)).items,
        same_other_counters(*old(report), *final(report)),
{
    let mut w = string_of("Copied ");
    crate::text::append(&mut w, file_name);
    crate::text::append(&mut w, " without conversion (.mcc oversized chunks are not supported yet).");
    report.warn(w);
}

// ---------------------------------------------------------------- adding twice adds nothing

proof fn lemma_positions_concat(a: Seq<NbtV>, b: Seq<NbtV>)
    ensures
        positions(a + b) == positions(a) + positions(b),
    decreases b.len(),
{
    if b.len() == 0 {
        assert(a + b =~= a);
        assert(positions(a) + positions(b) =~= positions(a));
    } else {
        assert((a + b).drop_last() =~= a + b.drop_last());
        assert((a + b).last() == b.last());
        lemma_positions_concat(a, b.drop_last());
        match be_pos(b.last()) {
            Some(q) => assert(positions(a) + positions(b.drop_last()).push(q) =~= (positions(a) + positions(b.drop_last())).push(q)),
            None => {},
        }
    }
}

proof fn lemma_positions_contains(s: Seq<NbtV>, k: int)
    requires
        0 <= k < s.len(),
        be_pos(s[k]) is Some,
    ensures
        positions(s).contains(be_pos(s[k])->0),
    decreases s.len(),
{
    if k < s.len() - 1 {
        assert(s.drop_last()[k] == s[k]);
        lemma_positions_contains(s.drop_last(), k);
        let p = positions(s.drop_last());
        let j = choose|j: int| 0 <= j < p.len() && p[j] == be_pos(s[k])->0;
        match be_pos(s.last()) {
            Some(q) => assert(p.push(q)[j] == p[j]),
            None => {},
        }
    } else {
        let p = positions(s.drop_last());
        assert(p.push(be_pos(s[k])->0)[p.len() as int] == be_pos(s[k])->0);
    }
}

proof fn lemma_be_pos(id: Seq<char>, x: int, y: int, z: int)
    ensures
        be_pos(be_compound(id, x, y, z)) == Some((x as i32, y as i32, z as i32)),
{
    reveal_strlit("id");
    reveal_strlit("x");
    reveal_strlit("y");
    reveal_strlit("z");
    reveal_strlit("keepPacked");
    let m = be_compound(id, x, y, z)->Compound_0;
    assert("id"@.len() == 2 && "x"@.len() == 1 && "y"@.len() == 1 && "z"@.len() == 1);
    assert("x"@[0] == 'x' && "y"@[0] == 'y' && "z"@[0] == 'z');
    assert(m[0].0 != "x"@ && m[0].0 != "y"@ && m[0].0 != "z"@);
    assert(m[1].0 != "y"@ && m[1].0 != "z"@);
    assert(m[2].0 != "z"@);
    assert(crate::nbt::is_first(m, "x"@, 1));
    assert(crate::nbt::is_first(m, "y"@, 2));
    assert(crate::nbt::is_first(m, "z"@, 3));
    crate::nbt::lemma_first_unique(m, "x"@, 1);
    crate::nbt::lemma_first_unique(m, "y"@, 2);
    crate::nbt::lemma_first_unique(m, "z"@, 3);
}

/// Every position of `e` is one of `e2`.
pub open spec fn covers(e2: Seq<(i32, i32, i32)>, e: Seq<(i32, i32, i32)>) -> bool {
    forall|p: (i32, i32, i32)| e.contains(p) ==> e2.contains(p)
}

/// Every block entity of `added` stands at a position of `e2`.
pub open spec fn placed_in(e2: Seq<(i32, i32, i32)>, added: Seq<NbtV>) -> bool {
    forall|k: int| 0 <= k < added.len() ==> (be_pos(#[trigger] added[k]) is Some && e2.contains(be_pos(added[k])->0))
}

proof fn lemma_cells_again(
    n: nat,
    p: Seq<NbtV>,
    data: Option<Seq<i64>>,
    bits: nat,
    cx: i32,
    sy: int,
    cz: i32,
    e: Seq<(i32, i32, i32)>,
    e2: Seq<(i32, i32, i32)>,
)
    requires
        cells_upto(n, p, data, bits, cx, sy, cz, e) matches Some(acc) && placed_in(e2, acc),
        covers(e2, e),
    ensures
        cells_upto(n, p, data, bits, cx, sy, cz, e2) == Some(Seq::<NbtV>::empty()),
    decreases n,
{
    reveal(cell_entity);
    if n > 0 {
        let acc = cells_upto(n, p, data, bits, cx, sy, cz, e)->0;
        let acc0 = cells_upto((n - 1) as nat, p, data, bits, cx, sy, cz, e)->0;
        assert(placed_in(e2, acc0)) by {
            assert forall|k: int| 0 <= k < acc0.len() implies (be_pos(#[trigger] acc0[k]) is Some && e2.contains(be_pos(acc0[k])->0)) by {
                assert(acc[k] == acc0[k]);
            }
        }
        lemma_cells_again((n - 1) as nat, p, data, bits, cx, sy, cz, e, e2);
        let i = n - 1;
        match cell_index(data, i, bits) {
            Some(pi) => if 0 <= pi < p.len() && target_of(p[pi]) is Some {
                let x = cx * 16 + i % 16;
                let y = sy * 16 + (i / 256) % 16;
                let z = cz * 16 + (i / 16) % 16;
                let pos = (x as i32, y as i32, z as i32);
                if e.contains(pos) {
                    assert(e2.contains(pos));
                } else {
                    let b = be_compound(target_of(p[pi])->0, x, y, z);
                    lemma_be_pos(target_of(p[pi])->0, x, y, z);
                    assert(acc == acc0.push(b));
                    assert(acc[acc.len() - 1] == b);
                    assert(e2.contains(pos));
                }
            },
            None => {},
        }
    }
}

proof fn lemma_sections_again(secs: Seq<NbtV>, cx: i32, cz: i32, e: Seq<(i32, i32, i32)>, e2: Seq<(i32, i32, i32)>)
    requires
        sections_entities(secs, cx, cz, e) matches Some(acc) && placed_in(e2, acc),
        covers(e2, e),
    ensures
        sections_entities(secs, cx, cz, e2) == Some(Seq::<NbtV>::empty()),
    decreases secs.len(),
{
    if secs.len() > 0 {
        let acc = sections_entities(secs, cx, cz, e)->0;
        let acc0 = sections_entities(secs.drop_last(), cx, cz, e)->0;
        let more = section_entities(secs.last(), cx, cz, e)->0;
        assert(acc == acc0 + more);
        assert(placed_in(e2, acc0)) by {
            assert forall|k: int| 0 <= k < acc0.len() implies (be_pos(#[trigger] acc0[k]) is Some && e2.contains(be_pos(acc0[k])->0)) by {
                assert(acc[k] == acc0[k]);
            }
        }
        assert(placed_in(e2, more)) by {
            assert forall|k: int| 0 <= k < more.len() implies (be_pos(#[trigger] more[k]) is Some && e2.contains(be_pos(more[k])->0)) by {
                assert(acc[acc0.len() + k] == more[k]);
            }
        }
        lemma_sections_again(secs.drop_last(), cx, cz, e, e2);
        match secs.last() {
            NbtV::Compound(s) => match section_y(cget(s, "Y"@)) {
                Some(sy) => match cget(s, "block_states"@) {
                    Some(NbtV::Compound(bs)) => match cget(bs, "palette"@) {
                        Some(NbtV::List(p)) => if has_target(p) && palette_bits_spec(p.len()) < 64 {
                            lemma_cells_again(4096, p, data_of(bs), palette_bits_spec(p.len()), cx, sy, cz, e, e2);
                        },
                        _ => {},
                    },
                    _ => {},
                },
                None => {},
            },
            _ => {},
        }
        assert(Seq::<NbtV>::empty() + Seq::<NbtV>::empty() =~= Seq::<NbtV>::empty());
    }
}

/// The chunk with the expected block entities added (the chunk itself where there is
/// no result).
pub open spec fn ensured(c: Entries) -> Entries {
    match ensure_spec(c) {
        Some((c1, _)) => c1,
        None => c,
    }
}

/// Adding the expected block entities a second time adds none: every block entity the
/// first call adds stands at a position that the second call then finds taken, and
/// the chunk is left as it is.
pub proof fn lemma_ensure_idempotent(c: Entries)
    requires
        ensure_spec(c) is Some,
    ensures
        ensure_spec(ensured(c)) == Some((ensured(c), 0nat)),
{
    let c1 = ensured(c);
    match (cget(c, "xPos"@), cget(c, "zPos"@)) {
        (Some(NbtV::Int(cx)), Some(NbtV::Int(cz))) => match cget(c, "sections"@) {
            Some(NbtV::List(secs)) => {
                let e = existing_positions(c);
                let added = sections_entities(secs, cx, cz, e)->0;
                if added.len() == 0 {
                    assert(c1 == c);
                } else {
                    reveal_strlit("block_entities");
                    reveal_strlit("xPos");
                    reveal_strlit("zPos");
                    reveal_strlit("sections");
                    assert("block_entities"@.len() == 14 && "xPos"@.len() == 4 && "zPos"@.len() == 4
                        && "sections"@.len() == 8);
                    let l2 = match cget(c, "block_entities"@) {
                        Some(NbtV::List(l)) => l + added,
                        _ => added,
                    };
                    assert(c1 == cins(c, "block_entities"@, NbtV::List(l2)));
                    crate::nbt::lemma_cget_cins_other(c, "block_entities"@, NbtV::List(l2), "xPos"@);
                    crate::nbt::lemma_cget_cins_other(c, "block_entities"@, NbtV::List(l2), "zPos"@);
                    crate::nbt::lemma_cget_cins_other(c, "block_entities"@, NbtV::List(l2), "sections"@);
                    crate::nbt::lemma_cget_cins_same(c, "block_entities"@, NbtV::List(l2));
                    let e2 = positions(l2);
                    match cget(c, "block_entities"@) {
                        Some(NbtV::List(l)) => {
                            lemma_positions_concat(l, added);
                            assert forall|q: (i32, i32, i32)| e.contains(q) implies e2.contains(q) by {
                                let j = choose|j: int| 0 <= j < e.len() && e[j] == q;
                                assert(e2[j] == q);
                            }
                            assert forall|k: int| 0 <= k < added.len() implies (be_pos(#[trigger] added[k]) is Some && e2.contains(be_pos(added[k])->0)) by {
                                assert(l2[l.len() + k] == added[k]);
                                lemma_added_placed(secs, cx, cz, e, k);
                                lemma_positions_contains(l2, l.len() + k);
                            }
                        },
                        _ => {
                            assert forall|k: int| 0 <= k < added.len() implies (be_pos(#[trigger] added[k]) is Some && e2.contains(be_pos(added[k])->0)) by {
                                lemma_added_placed(secs, cx, cz, e, k);
                                lemma_positions_contains(l2, k);
                            }
                        },
                    }
                    lemma_sections_again(secs, cx, cz, e, e2);
                    assert(existing_positions(c1) == e2);
                }
            },
            _ => {},
        },
        _ => {},
    }
}

/// Every block entity that the sections add has a position.
proof fn lemma_added_placed(secs: Seq<NbtV>, cx: i32, cz: i32, e: Seq<(i32, i32, i32)>, k: int)
    requires
        sections_entities(secs, cx, cz, e) matches Some(acc) && 0 <= k < acc.len(),
    ensures
        be_pos(sections_entities(secs, cx, cz, e)->0[k]) is Some,
    decreases secs.len(),
{
    if secs.len() > 0 {
        let acc = sections_entities(secs, cx, cz, e)->0;
        let acc0 = sections_entities(secs.drop_last(), cx, cz, e)->0;
        let more = section_entities(secs.last(), cx, cz, e)->0;
        if k < acc0.len() {
            assert(acc[k] == acc0[k]);
            lemma_added_placed(secs.drop_last(), cx, cz, e, k);
        } else {
            assert(acc[k] == more[k - acc0.len()]);
            match secs.last() {
                NbtV::Compound(s) => match section_y(cget(s, "Y"@)) {
                    Some(sy) => match cget(s, "block_states"@) {
                        Some(NbtV::Compound(bs)) => match cget(bs, "palette"@) {
                            Some(NbtV::List(p)) => {
                                lemma_cells_placed(4096, p, data_of(bs), palette_bits_spec(p.len()), cx, sy, cz, e, k - acc0.len());
                            },
                            _ => {},
                        },
                        _ => {},
                    },
                    None => {},
                },
                _ => {},
            }
        }
    }
}

proof fn lemma_cells_placed(
    n: nat,
    p: Seq<NbtV>,
    data: Option<Seq<i64>>,
    bits: nat,
    cx: i32,
    sy: int,
    cz: i32,
    e: Seq<(i32, i32, i32)>,
    k: int,
)
    requires
        cells_upto(n, p, data, bits, cx, sy, cz, e) matches Some(acc) && 0 <= k < acc.len(),
    ensures
        be_pos(cells_upto(n, p, data, bits, cx, sy, cz, e)->0[k]) is Some,
    decreases n,
{
    reveal(cell_entity);
    if n > 0 {
        let acc = cells_upto(n, p, data, bits, cx, sy, cz, e)->0;
        let acc0 = cells_upto((n - 1) as nat, p, data, bits, cx, sy, cz, e)->0;
        if k < acc0.len() {
            assert(acc[k] == acc0[k]);
            lemma_cells_placed((n - 1) as nat, p, data, bits, cx, sy, cz, e, k);
        } else {
            let i = n - 1;
            let pi = cell_index(data, i, bits)->0;
            let x = cx * 16 + i % 16;
            let y = sy * 16 + (i / 256) % 16;
            let z = cz * 16 + (i / 16) % 16;
            lemma_be_pos(target_of(p[pi])->0, x, y, z);
        }
    }
}

} // verus!
