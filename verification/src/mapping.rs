//! The block allowlist: the block ids that the target version knows. Palette entries
//! naming any other block become air.
use vstd::prelude::*;
use crate::error::Error;
use crate::nbt::{
    cget, cins, crem, cv, get, insert, lemma_cins_same, lemma_lv, list_take, lv, nv, remove,
    restore, take, Entries, Nbt, NbtV,
};
use crate::text::{str_eq, string_of};

verus! {

/// The texts of a list of strings.
pub open spec fn strings_view(s: Seq<String>) -> Seq<Seq<char>> {
    Seq::new(s.len(), |i: int| s[i]@)
}

/// What serde_json makes of a JSON text read as a list of strings: the strings, or
/// the text of its error.
pub uninterp spec fn json_string_list(text: Seq<char>) -> Result<Seq<Seq<char>>, Seq<char>>;

/// Parses a JSON array of strings with `serde_json::from_str::<Vec<String>>`. The
/// contract only ties the result to the text through [`json_string_list`]: the parse
/// itself (and its error messages) is serde_json's.
#[verifier::external_body]
fn parse_string_list(text: &str) -> (r: Result<Vec<String>, String>)
    ensures
        match r {
            Ok(v) => json_string_list(text@) == Ok::<Seq<Seq<char>>, Seq<char>>(strings_view(v@)),
            Err(m) => json_string_list(text@) == Err::<Seq<Seq<char>>, Seq<char>>(m@),
        },
{
    match serde_json::from_str::<Vec<String>>(text) {
        Ok(v) => Ok(v),
        Err(e) => Err(e.to_string()),
    }
}

/// The set of block ids that the target version knows.
pub struct BlockTable {
    allowed: Vec<String>,
}

impl View for BlockTable {
    type V = Set<Seq<char>>;

    closed spec fn view(&self) -> Set<Seq<char>> {
        strings_view(self.allowed@).to_set()
    }
}

impl BlockTable {
    /// Each id is held once.
    #[verifier::type_invariant]
    closed spec fn inv(self) -> bool {
        strings_view(self.allowed@).no_duplicates()
    }

    /// The table of the given ids (repetitions count once).
    pub fn from_ids(ids: Vec<String>) -> (r: BlockTable)
        ensures
            r@ == strings_view(ids@).to_set(),
            r@.finite(),
    {
        let mut allowed: Vec<String> = Vec::new();
        let mut ids = ids;
        let ghost orig = strings_view(ids@);
        let n = ids.len();
        let mut i: usize = 0;
        while i < n
            invariant
                n == ids@.len() == orig.len(),
                i <= n,
                forall|j: int| i <= j < n ==> (#[trigger] ids@[j])@ == orig[j],
                strings_view(allowed@).no_duplicates(),
                strings_view(allowed@).to_set() == orig.take(i as int).to_set(),
            decreases n - i,
        {
            let id = string_take(&mut ids, i);
            let known = contains_id(&allowed, id.as_str());
            let ghost before = strings_view(allowed@);
            proof {
                assert(orig.take(i + 1) =~= orig.take(i as int).push(id@));
            }
            if !known {
                allowed.push(id);
                proof {
                    assert(strings_view(allowed@) =~= before.push(id@));
                    lemma_push_to_set(before, id@);
                    lemma_push_to_set(orig.take(i as int), id@);
                    assert forall|a: int, b: int| 0 <= a < b < before.len() + 1 implies strings_view(allowed@)[a]
                        != strings_view(allowed@)[b] by {
                        if b == before.len() {
                            assert(before.contains(before[a]));
                        }
                    }
                }
            } else {
                proof {
                    lemma_push_to_set(orig.take(i as int), id@);
                    assert(before.to_set().contains(id@));
                    assert(before.to_set().insert(id@) =~= before.to_set());
                }
            }
            i = i + 1;
        }
        assert(orig.take(n as int) =~= orig);
        proof {
            vstd::seq_lib::seq_to_set_is_finite(orig);
        }
        BlockTable { allowed }
    }

    /// The table read from a JSON array of block ids (the text of the file at `path`);
    /// an NBT error for `path` with serde_json's message when the text is no such
    /// array.
    pub fn load_json(text: &str, path: &str) -> (r: Result<BlockTable, Error>)
        ensures
            match json_string_list(text@) {
                Ok(ids) => r matches Ok(t) && t@ == ids.to_set(),
                Err(m) => r matches Err(Error::Nbt { context: c, message: msg }) && c@ == path@
                    && msg@ == m,
            },
    {
        match parse_string_list(text) {
            Ok(ids) => Ok(BlockTable::from_ids(ids)),
            Err(m) => Err(Error::nbt(path, m.as_str())),
        }
    }

    /// Whether the target version knows the block.
    pub fn contains(&self, id: &str) -> (r: bool)
        ensures
            r == self@.contains(id@),
    {
        contains_id(&self.allowed, id)
    }

    /// The number of ids in the table (which holds finitely many).
    pub fn len(&self) -> (r: usize)
        ensures
            self@.finite(),
            r == self@.len(),
    {
        proof {
            use_type_invariant(self);
            strings_view(self.allowed@).unique_seq_to_set();
            vstd::seq_lib::seq_to_set_is_finite(strings_view(self.allowed@));
        }
        self.allowed.len()
    }

    /// Whether the table is empty: it holds no id at all.
    pub fn is_empty(&self) -> (r: bool)
        ensures
            r == (self@.len() == 0),
            r == (self@ == Set::<Seq<char>>::empty()),
            r == (forall|id: Seq<char>| !self@.contains(id)),
    {
        let n = self.len();
        proof {
            if n == 0 {
                self@.lemma_len0_is_empty();
            } else {
                assert(self@ != Set::<Seq<char>>::empty());
                let x = self@.choose();
                assert(self@.contains(x));
            }
        }
        n == 0
    }
}

proof fn lemma_push_to_set(s: Seq<Seq<char>>, x: Seq<char>)
    ensures
        s.push(x).to_set() == s.to_set().insert(x),
{
    assert forall|a: Seq<char>| s.push(x).to_set().contains(a) <==> s.to_set().insert(x).contains(a) by {
        if s.contains(a) {
            let k = choose|k: int| 0 <= k < s.len() && s[k] == a;
            assert(s.push(x)[k] == a);
        }
        if s.push(x).contains(a) {
            let k = choose|k: int| 0 <= k < s.len() + 1 && s.push(x)[k] == a;
            if k < s.len() {
                assert(s[k] == a);
            }
        }
        if a == x {
            assert(s.push(x)[s.len() as int] == x);
        }
    }
    assert(s.push(x).to_set() =~= s.to_set().insert(x));
}

fn string_take(v: &mut Vec<String>, i: usize) -> (r: String)
    requires
        i < old(v).len(),
    ensures
        r == old(v)@[i as int],
        final(v)@.len() == old(v)@.len(),
        forall|j: int| 0 <= j < old(v)@.len() && j != i ==> final(v)@[j] == old(v)@[j],
{
    let mut x = String::new();
    std::mem::swap(&mut v[i], &mut x);
    x
}

fn contains_id(v: &Vec<String>, id: &str) -> (r: bool)
    ensures
        r == strings_view(v@).contains(id@),
{
    let n = v.len();
    let mut i: usize = 0;
    while i < n
        invariant
            n == v@.len(),
            i <= n,
            forall|j: int| 0 <= j < i ==> (#[trigger] v@[j])@ != id@,
        decreases n - i,
    {
        if str_eq(v[i].as_str(), id) {
            assert(strings_view(v@)[i as int] == id@);
            return true;
        }
        i = i + 1;
    }
    proof {
        if strings_view(v@).contains(id@) {
            let k = choose|k: int| 0 <= k < strings_view(v@).len() && strings_view(v@)[k] == id@;
            assert(v@[k]@ == id@);
        }
    }
    false
}

// ---------------------------------------------------------------- palettes

/// A palette entry naming a block outside the table becomes air (its properties
/// removed), counted once.
pub open spec fn block_filter(b: NbtV, allowed: Set<Seq<char>>) -> (NbtV, nat) {
    match b {
        NbtV::Compound(m) => match cget(m, "Name"@) {
            Some(NbtV::String(name)) => if !allowed.contains(name) {
                (
                    NbtV::Compound(
                        crem(cins(m, "Name"@, NbtV::String("minecraft:air"@)), "Properties"@),
                    ),
                    1,
                )
            } else {
                (b, 0)
            },
            _ => (b, 0),
        },
        _ => (b, 0),
    }
}

/// A palette filtered entry by entry, with the number of entries replaced.
pub open spec fn palette_fold(p: Seq<NbtV>, allowed: Set<Seq<char>>) -> (Seq<NbtV>, nat)
    decreases p.len(),
{
    if p.len() == 0 {
        (Seq::empty(), 0)
    } else {
        let (a, n) = palette_fold(p.drop_last(), allowed);
        let (x, k) = block_filter(p.last(), allowed);
        (a.push(x), n + k)
    }
}

/// A chunk section with the palette of its `block_states` filtered.
pub open spec fn section_filter(s: NbtV, allowed: Set<Seq<char>>) -> (NbtV, nat) {
    match s {
        NbtV::Compound(m) => match cget(m, "block_states"@) {
            Some(NbtV::Compound(bs)) => match cget(bs, "palette"@) {
                Some(NbtV::List(p)) => {
                    let (p2, n) = palette_fold(p, allowed);
                    (
                        NbtV::Compound(
                            cins(m, "block_states"@, NbtV::Compound(cins(bs, "palette"@, NbtV::List(p2)))),
                        ),
                        n,
                    )
                },
                _ => (s, 0),
            },
            _ => (s, 0),
        },
        _ => (s, 0),
    }
}

/// The sections of a chunk filtered one by one, with the number of entries replaced.
pub open spec fn sections_fold(secs: Seq<NbtV>, allowed: Set<Seq<char>>) -> (Seq<NbtV>, nat)
    decreases secs.len(),
{
    if secs.len() == 0 {
        (Seq::empty(), 0)
    } else {
        let (a, n) = sections_fold(secs.drop_last(), allowed);
        let (x, k) = section_filter(secs.last(), allowed);
        (a.push(x), n + k)
    }
}

/// A chunk with every palette entry outside the table turned into air, with the
/// number of entries replaced.
pub open spec fn filter_spec(c: Entries, allowed: Set<Seq<char>>) -> (Entries, nat) {
    match cget(c, "sections"@) {
        Some(NbtV::List(secs)) => {
            let (s2, n) = sections_fold(secs, allowed);
            (cins(c, "sections"@, NbtV::List(s2)), n)
        },
        _ => (c, 0),
    }
}

proof fn lemma_palette_count(p: Seq<NbtV>, allowed: Set<Seq<char>>)
    ensures
        palette_fold(p, allowed).1 <= p.len(),
        palette_fold(p, allowed).0.len() == p.len(),
    decreases p.len(),
{
    if p.len() > 0 {
        lemma_palette_count(p.drop_last(), allowed);
    }
}

proof fn lemma_sections_prefix(secs: Seq<NbtV>, allowed: Set<Seq<char>>, i: int)
    requires
        0 <= i <= secs.len(),
    ensures
        sections_fold(secs.take(i), allowed).1 <= sections_fold(secs, allowed).1,
        sections_fold(secs, allowed).0.len() == secs.len(),
    decreases secs.len(),
{
    if secs.len() > 0 {
        lemma_sections_prefix(secs.drop_last(), allowed, if i < secs.len() { i } else { i - 1 });
        if i == secs.len() {
            assert(secs.take(i) =~= secs);
        } else {
            assert(secs.drop_last().take(i) =~= secs.take(i));
        }
    }
}

fn palette_exec(p: &mut Vec<Nbt>, table: &BlockTable) -> (r: u64)
    ensures
        (lv(final(p)@), r as nat) == palette_fold(lv(old(p)@), table@),
{
    let ghost orig = lv(p@);
    let n = p.len();
    let mut count: u64 = 0;
    let mut i: usize = 0;
    proof {
        lemma_lv(p@);
        assert(orig.take(0) =~= Seq::<NbtV>::empty());
    }
    while i < n
        invariant
            n == p@.len() == orig.len(),
            i <= n,
            lv(p@) == palette_fold(orig.take(i as int), table@).0 + orig.subrange(i as int, n as int),
            count as nat == palette_fold(orig.take(i as int), table@).1,
        decreases n - i,
    {
        proof {
            lemma_lv(p@);
            lemma_palette_count(orig.take(i as int), table@);
            assert(lv(p@)[i as int] == orig[i as int]);
            assert(orig.take(i + 1).drop_last() =~= orig.take(i as int));
        }
        let ghost p_start = p@;
        let b = list_take(p, i);
        let (b2, replaced) = block_exec(b, table);
        p.set(i, b2);
        if replaced {
            count = count + 1;
        }
        proof {
            let pre = palette_fold(orig.take(i as int), table@).0;
            assert(p@ =~= p_start.update(i as int, b2));
            lemma_lv(p@);
            lemma_lv(p_start);
            assert(lv(p@) =~= lv(p_start).update(i as int, nv(b2)));
            assert(palette_fold(orig.take(i + 1), table@).0 == pre.push(nv(b2)));
            assert(lv(p@) =~= pre.push(nv(b2)) + orig.subrange(i + 1, n as int));
        }
        i = i + 1;
    }
    proof {
        assert(orig.take(n as int) =~= orig);
        assert(lv(p@) =~= palette_fold(orig, table@).0);
    }
    count
}

fn block_exec(b: Nbt, table: &BlockTable) -> (r: (Nbt, bool))
    ensures
        (nv(r.0), if r.1 { 1nat } else { 0nat }) == block_filter(nv(b), table@),
{
    match b {
        Nbt::Compound(mut m) => {
            let unknown = match get(&m, "Name") {
                Some(Nbt::String(name)) => !table.contains(name.as_str()),
                _ => false,
            };
            if unknown {
                insert(&mut m, "Name", Nbt::String(string_of("minecraft:air")));
                remove(&mut m, "Properties");
                (Nbt::Compound(m), true)
            } else {
                (Nbt::Compound(m), false)
            }
        },
        other => (other, false),
    }
}

fn section_exec(s: Nbt, table: &BlockTable) -> (r: (Nbt, u64))
    ensures
        (nv(r.0), r.1 as nat) == section_filter(nv(s), table@),
{
    match s {
        Nbt::Compound(mut m) => {
            let ghost m0 = m@;
            match take(&mut m, "block_states") {
                Some((i, Nbt::Compound(mut bs))) => {
                    let ghost bs0 = bs@;
                    match take(&mut bs, "palette") {
                        Some((j, Nbt::List(mut p))) => {
                            let n = palette_exec(&mut p, table);
                            restore(&mut bs, j, Nbt::List(p), Ghost(bs0), Ghost("palette"@));
                            restore(&mut m, i, Nbt::Compound(bs), Ghost(m0), Ghost("block_states"@));
                            (Nbt::Compound(m), n)
                        },
                        Some((j, other)) => {
                            proof {
                                lemma_cins_same(cv(bs0), "palette"@);
                                lemma_cins_same(cv(m0), "block_states"@);
                            }
                            restore(&mut bs, j, other, Ghost(bs0), Ghost("palette"@));
                            restore(&mut m, i, Nbt::Compound(bs), Ghost(m0), Ghost("block_states"@));
                            (Nbt::Compound(m), 0)
                        },
                        None => {
                            proof {
                                lemma_cins_same(cv(m0), "block_states"@);
                            }
                            restore(&mut m, i, Nbt::Compound(bs), Ghost(m0), Ghost("block_states"@));
                            (Nbt::Compound(m), 0)
                        },
                    }
                },
                Some((i, other)) => {
                    proof {
                        lemma_cins_same(cv(m0), "block_states"@);
                    }
                    restore(&mut m, i, other, Ghost(m0), Ghost("block_states"@));
                    (Nbt::Compound(m), 0)
                },
                None => (Nbt::Compound(m), 0),
            }
        },
        other => (other, 0),
    }
}

/// Turns every palette entry of the chunk that names a block outside the table into
/// air and returns how many were replaced (see [`filter_spec`]).
pub fn filter_chunk_blocks(chunk: &mut Vec<(String, Nbt)>, table: &BlockTable) -> (r: u64)
    requires
        filter_spec(cv(old(chunk)@), table@).1 <= u64::MAX,
    ensures
        (cv(final(chunk)@), r as nat) == filter_spec(cv(old(chunk)@), table@),
{
    match try_filter_chunk_blocks(chunk, table) {
        Some(n) => n,
        None => 0,
    }
}

/// Filters the chunk's blocks as [`filter_chunk_blocks`] does where the count of
/// replaced blocks fits in 64 bits, and gives `None` (the chunk left part-way) exactly
/// where it does not.
pub(crate) fn try_filter_chunk_blocks(chunk: &mut Vec<(String, Nbt)>, table: &BlockTable) -> (r: Option<u64>)
    ensures
        r is Some == (filter_spec(cv(old(chunk)@), table@).1 <= u64::MAX),
        r matches Some(n) ==> (cv(final(chunk)@), n as nat) == filter_spec(cv(old(chunk)@), table@),
{
    let ghost c0 = chunk@;
    match take(chunk, "sections") {
        Some((k, Nbt::List(mut secs))) => {
            let ghost orig = lv(secs@);
            let n = secs.len();
            let mut count: u64 = 0;
            let mut i: usize = 0;
            proof {
                lemma_lv(secs@);
                assert(orig.take(0) =~= Seq::<NbtV>::empty());
                assert(orig.subrange(0, n as int) =~= orig);
            }
            while i < n
                invariant
                    n == secs@.len() == orig.len(),
                    i <= n,
                    lv(secs@) == sections_fold(orig.take(i as int), table@).0 + orig.subrange(i as int, n as int),
                    count as nat == sections_fold(orig.take(i as int), table@).1,
                    c0 == old(chunk)@,
                    filter_spec(cv(c0), table@).1 == sections_fold(orig, table@).1,
                decreases n - i,
            {
                proof {
                    lemma_lv(secs@);
                    lemma_sections_prefix(orig.take(i as int), table@, i as int);
                    lemma_sections_prefix(orig, table@, i + 1);
                    assert(lv(secs@)[i as int] == orig[i as int]);
                    assert(orig.take(i + 1).drop_last() =~= orig.take(i as int));
                    assert(orig.take(i as int).take(i as int) =~= orig.take(i as int));
                }
                let ghost s_start = secs@;
                let s = list_take(&mut secs, i);
                let (s2, replaced) = section_exec(s, table);
                secs.set(i, s2);
                if count > u64::MAX - replaced {
                    return None;
                }
                count = count + replaced;
                proof {
                    let pre = sections_fold(orig.take(i as int), table@).0;
                    assert(secs@ =~= s_start.update(i as int, s2));
                    lemma_lv(secs@);
                    lemma_lv(s_start);
                    assert(lv(secs@) =~= lv(s_start).update(i as int, nv(s2)));
                    assert(sections_fold(orig.take(i + 1), table@).0 == pre.push(nv(s2)));
                    assert(lv(secs@) =~= pre.push(nv(s2)) + orig.subrange(i + 1, n as int));
                }
                i = i + 1;
            }
            proof {
                assert(orig.take(n as int) =~= orig);
                assert(lv(secs@) =~= sections_fold(orig, table@).0);
            }
            restore(chunk, k, Nbt::List(secs), Ghost(c0), Ghost("sections"@));
            Some(count)
        },
        Some((k, other)) => {
            proof {
                lemma_cins_same(cv(c0), "sections"@);
            }
            restore(chunk, k, other, Ghost(c0), Ghost("sections"@));
            Some(0)
        },
        None => Some(0),
    }
}

/// The name of a palette entry, when it has one.
pub open spec fn entry_name(b: NbtV) -> Option<Seq<char>> {
    match b {
        NbtV::Compound(m) => match cget(m, "Name"@) {
            Some(NbtV::String(n)) => Some(n),
            _ => None,
        },
        _ => None,
    }
}

/// After filtering, every named palette entry names a block of the table or air; an
/// entry is counted exactly when it was renamed.
pub proof fn lemma_block_filter_allowed(b: NbtV, allowed: Set<Seq<char>>)
    ensures
        entry_name(block_filter(b, allowed).0) matches Some(n) ==> allowed.contains(n) || n
            == "minecraft:air"@,
        block_filter(b, allowed).1 == 1 <==> (entry_name(b) matches Some(n) && !allowed.contains(n)),
        block_filter(b, allowed).1 <= 1,
{
    match b {
        NbtV::Compound(m) => match cget(m, "Name"@) {
            Some(NbtV::String(name)) => if !allowed.contains(name) {
                let m1 = cins(m, "Name"@, NbtV::String("minecraft:air"@));
                crate::nbt::lemma_cget_cins_same(m, "Name"@, NbtV::String("minecraft:air"@));
                reveal_strlit("Name");
                reveal_strlit("Properties");
                assert("Properties"@.len() != "Name"@.len());
                crate::nbt::lemma_cget_crem_other(m1, "Properties"@, "Name"@);
            },
            _ => {},
        },
        _ => {},
    }
}

/// After filtering a palette, each entry that has a name names a block of the table or
/// air, and the count is the number of entries whose name was outside the table.
pub proof fn lemma_palette_allowed(p: Seq<NbtV>, allowed: Set<Seq<char>>)
    ensures
        palette_fold(p, allowed).0.len() == p.len(),
        forall|k: int| 0 <= k < p.len() ==> (entry_name(#[trigger] palette_fold(p, allowed).0[k]) matches Some(n)
            ==> allowed.contains(n) || n == "minecraft:air"@),
        forall|k: int| 0 <= k < p.len() ==> #[trigger] palette_fold(p, allowed).0[k] == block_filter(p[k], allowed).0,
    decreases p.len(),
{
    if p.len() > 0 {
        lemma_palette_allowed(p.drop_last(), allowed);
        lemma_block_filter_allowed(p.last(), allowed);
        let r = palette_fold(p, allowed).0;
        let r0 = palette_fold(p.drop_last(), allowed).0;
        assert forall|k: int| 0 <= k < p.len() implies #[trigger] r[k] == block_filter(p[k], allowed).0 by {
            if k < p.len() - 1 {
                assert(r[k] == r0[k]);
                assert(p.drop_last()[k] == p[k]);
            }
        }
        assert forall|k: int| 0 <= k < p.len() implies (entry_name(#[trigger] r[k]) matches Some(n) ==> allowed.contains(n)
            || n == "minecraft:air"@) by {
            lemma_block_filter_allowed(p[k], allowed);
        }
    }
}

/// The palette of a chunk section, when it has one.
pub open spec fn section_palette(v: NbtV) -> Option<Seq<NbtV>> {
    match v {
        NbtV::Compound(m) => match cget(m, "block_states"@) {
            Some(NbtV::Compound(bs)) => match cget(bs, "palette"@) {
                Some(NbtV::List(p)) => Some(p),
                _ => None,
            },
            _ => None,
        },
        _ => None,
    }
}

/// Every named entry of a palette names a block of the table or air.
pub open spec fn palette_allowed(p: Seq<NbtV>, allowed: Set<Seq<char>>) -> bool {
    forall|j: int| 0 <= j < p.len() ==> (entry_name(#[trigger] p[j]) matches Some(n) ==> allowed.contains(n) || n
        == "minecraft:air"@)
}

proof fn lemma_section_allowed(v: NbtV, allowed: Set<Seq<char>>)
    ensures
        section_palette(section_filter(v, allowed).0) matches Some(p2) ==> palette_allowed(p2, allowed),
{
    match v {
        NbtV::Compound(m) => match cget(m, "block_states"@) {
            Some(NbtV::Compound(bs)) => match cget(bs, "palette"@) {
                Some(NbtV::List(p)) => {
                    let (p2, _) = palette_fold(p, allowed);
                    let bs2 = cins(bs, "palette"@, NbtV::List(p2));
                    crate::nbt::lemma_cget_cins_same(bs, "palette"@, NbtV::List(p2));
                    crate::nbt::lemma_cget_cins_same(m, "block_states"@, NbtV::Compound(bs2));
                    lemma_palette_allowed(p, allowed);
                },
                _ => {},
            },
            _ => {},
        },
        _ => {},
    }
}

proof fn lemma_sections_allowed(secs: Seq<NbtV>, allowed: Set<Seq<char>>)
    ensures
        sections_fold(secs, allowed).0.len() == secs.len(),
        forall|k: int| 0 <= k < secs.len() ==> #[trigger] sections_fold(secs, allowed).0[k] == section_filter(
            secs[k],
            allowed,
        ).0,
    decreases secs.len(),
{
    if secs.len() > 0 {
        lemma_sections_allowed(secs.drop_last(), allowed);
        let r = sections_fold(secs, allowed).0;
        let r0 = sections_fold(secs.drop_last(), allowed).0;
        assert forall|k: int| 0 <= k < secs.len() implies #[trigger] r[k] == section_filter(secs[k], allowed).0 by {
            if k < secs.len() - 1 {
                assert(r[k] == r0[k]);
                assert(secs.drop_last()[k] == secs[k]);
            }
        }
    }
}

/// After [`filter_chunk_blocks`], every named palette entry of every section names a
/// block of the table or air.
pub proof fn lemma_filter_allowed(c: Entries, allowed: Set<Seq<char>>)
    ensures
        cget(filter_spec(c, allowed).0, "sections"@) matches Some(NbtV::List(secs)) ==> forall|k: int|
            0 <= k < secs.len() ==> (section_palette(#[trigger] secs[k]) matches Some(p) ==> palette_allowed(
                p,
                allowed,
            )),
{
    match cget(c, "sections"@) {
        Some(NbtV::List(secs)) => {
            let (s2, _) = sections_fold(secs, allowed);
            crate::nbt::lemma_cget_cins_same(c, "sections"@, NbtV::List(s2));
            lemma_sections_allowed(secs, allowed);
            assert forall|k: int| 0 <= k < s2.len() implies (section_palette(#[trigger] s2[k]) matches Some(p)
                ==> palette_allowed(p, allowed)) by {
                lemma_section_allowed(secs[k], allowed);
            }
        },
        _ => {},
    }
}

} // verus!
