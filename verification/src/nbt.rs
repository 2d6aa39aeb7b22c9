//! The NBT data model: a tree of tagged values whose compounds are ordered lists of
//! named entries, and the compound operations (lookup, insert, remove) the conversion
//! rules are written with. Floating-point payloads are carried as their IEEE-754 bits.
use vstd::prelude::*;
use crate::text::str_eq;

verus! {

/// One NBT value. `Float` and `Double` hold the IEEE-754 bit patterns of the numbers.
#[derive(Debug, PartialEq)]
pub enum Nbt {
    Byte(i8),
    Short(i16),
    Int(i32),
    Long(i64),
    Float(u32),
    Double(u64),
    ByteArray(Vec<i8>),
    String(String),
    List(Vec<Nbt>),
    Compound(Vec<(String, Nbt)>),
    IntArray(Vec<i32>),
    LongArray(Vec<i64>),
}

/// The mathematical value of an [`Nbt`].
pub enum NbtV {
    Byte(i8),
    Short(i16),
    Int(i32),
    Long(i64),
    Float(u32),
    Double(u64),
    ByteArray(Seq<i8>),
    String(Seq<char>),
    List(Seq<NbtV>),
    Compound(Seq<(Seq<char>, NbtV)>),
    IntArray(Seq<i32>),
    LongArray(Seq<i64>),
}

/// The entries of a compound, in order.
pub type Entries = Seq<(Seq<char>, NbtV)>;

/// The mathematical value of a value.
pub open spec fn nv(v: Nbt) -> NbtV
    decreases v,
{
    match v {
        Nbt::Byte(b) => NbtV::Byte(b),
        Nbt::Short(b) => NbtV::Short(b),
        Nbt::Int(b) => NbtV::Int(b),
        Nbt::Long(b) => NbtV::Long(b),
        Nbt::Float(b) => NbtV::Float(b),
        Nbt::Double(b) => NbtV::Double(b),
        Nbt::ByteArray(a) => NbtV::ByteArray(a@),
        Nbt::String(s) => NbtV::String(s@),
        Nbt::List(l) => NbtV::List(lv(l@)),
        Nbt::Compound(c) => NbtV::Compound(cv(c@)),
        Nbt::IntArray(a) => NbtV::IntArray(a@),
        Nbt::LongArray(a) => NbtV::LongArray(a@),
    }
}

/// The values of a list.
pub open spec fn lv(s: Seq<Nbt>) -> Seq<NbtV>
    decreases s,
{
    Seq::new(s.len(), |i: int| if 0 <= i < s.len() { nv(s[i]) } else { NbtV::Byte(0) })
}

/// The entries of a compound.
pub open spec fn cv(s: Seq<(String, Nbt)>) -> Entries
    decreases s,
{
    Seq::new(
        s.len(),
        |i: int|
            if 0 <= i < s.len() {
                (s[i].0@, nv(s[i].1))
            } else {
                (Seq::empty(), NbtV::Byte(0))
            },
    )
}

/// Whether some entry has key `k`.
pub open spec fn has_key(c: Entries, k: Seq<char>) -> bool {
    exists|i: int| 0 <= i < c.len() && #[trigger] c[i].0 == k
}

/// `i` is the position of the first entry with key `k`.
pub open spec fn is_first(c: Entries, k: Seq<char>, i: int) -> bool {
    &&& 0 <= i < c.len()
    &&& c[i].0 == k
    &&& forall|j: int| 0 <= j < i ==> #[trigger] c[j].0 != k
}

/// The position of the first entry with key `k`.
pub open spec fn first(c: Entries, k: Seq<char>) -> int {
    choose|i: int| is_first(c, k, i)
}

/// The value stored under `k` (the first entry with that key).
pub open spec fn cget(c: Entries, k: Seq<char>) -> Option<NbtV> {
    if has_key(c, k) {
        Some(c[first(c, k)].1)
    } else {
        None
    }
}

/// Stores `v` under `k`: the first entry with that key is replaced in place,
/// otherwise a new entry is appended.
pub open spec fn cins(c: Entries, k: Seq<char>, v: NbtV) -> Entries {
    if has_key(c, k) {
        c.update(first(c, k), (k, v))
    } else {
        c.push((k, v))
    }
}

/// Removes the first entry with key `k`, if any.
pub open spec fn crem(c: Entries, k: Seq<char>) -> Entries {
    if has_key(c, k) {
        c.remove(first(c, k))
    } else {
        c
    }
}

/// The first entry with a key is well defined.
pub proof fn lemma_first(c: Entries, k: Seq<char>)
    requires
        has_key(c, k),
    ensures
        is_first(c, k, first(c, k)),
    decreases c.len(),
{
    if c[0].0 == k {
        assert(is_first(c, k, 0));
    } else {
        let d = c.drop_first();
        let w = choose|i: int| 0 <= i < c.len() && #[trigger] c[i].0 == k;
        assert(d[w - 1].0 == k);
        lemma_first(d, k);
        let j = first(d, k);
        assert forall|m: int| 0 <= m < j + 1 implies #[trigger] c[m].0 != k by {
            if m > 0 {
                assert(c[m] == d[m - 1]);
            }
        }
        assert(is_first(c, k, j + 1));
    }
}

/// The first position is the only one with the `is_first` property.
pub proof fn lemma_first_unique(c: Entries, k: Seq<char>, i: int)
    requires
        is_first(c, k, i),
    ensures
        first(c, k) == i,
        has_key(c, k),
{
    assert(c[i].0 == k);
    lemma_first(c, k);
    let f = first(c, k);
    if f < i {
        assert(c[f].0 != k);
    } else if f > i {
        assert(c[i].0 != k);
    }
}

/// The view of a compound's entry list has the same length and entrywise views.
pub proof fn lemma_cv(s: Seq<(String, Nbt)>)
    ensures
        cv(s).len() == s.len(),
        forall|i: int| 0 <= i < s.len() ==> #[trigger] cv(s)[i] == (s[i].0@, nv(s[i].1)),
{
}

/// The view of a list has the same length and elementwise views.
pub proof fn lemma_lv(s: Seq<Nbt>)
    ensures
        lv(s).len() == s.len(),
        forall|i: int| 0 <= i < s.len() ==> #[trigger] lv(s)[i] == nv(s[i]),
{
}

pub proof fn lemma_cv_push(s: Seq<(String, Nbt)>, e: (String, Nbt))
    ensures
        cv(s.push(e)) == cv(s).push((e.0@, nv(e.1))),
{
    assert(cv(s.push(e)) =~= cv(s).push((e.0@, nv(e.1))));
}

pub proof fn lemma_lv_push(s: Seq<Nbt>, e: Nbt)
    ensures
        lv(s.push(e)) == lv(s).push(nv(e)),
{
    assert(lv(s.push(e)) =~= lv(s).push(nv(e)));
}

pub proof fn lemma_cv_empty()
    ensures
        cv(Seq::<(String, Nbt)>::empty()) == Seq::<(Seq<char>, NbtV)>::empty(),
{
    assert(cv(Seq::<(String, Nbt)>::empty()) =~= Seq::<(Seq<char>, NbtV)>::empty());
}

pub proof fn lemma_lv_empty()
    ensures
        lv(Seq::<Nbt>::empty()) == Seq::<NbtV>::empty(),
{
    assert(lv(Seq::<Nbt>::empty()) =~= Seq::<NbtV>::empty());
}

/// Position of the first entry with key `k`.
pub fn find_key(c: &Vec<(String, Nbt)>, k: &str) -> (r: Option<usize>)
    ensures
        match r {
            Some(i) => is_first(cv(c@), k@, i as int) && first(cv(c@), k@) == i && has_key(
                cv(c@),
                k@,
            ),
            None => !has_key(cv(c@), k@),
        },
{
    proof {
        lemma_cv(c@);
    }
    let mut i: usize = 0;
    while i < c.len()
        invariant
            i <= c.len(),
            cv(c@).len() == c@.len(),
            forall|j: int| 0 <= j < i ==> #[trigger] cv(c@)[j].0 != k@,
        decreases c.len() - i,
    {
        if str_eq(c[i].0.as_str(), k) {
            proof {
                lemma_first_unique(cv(c@), k@, i as int);
            }
            return Some(i);
        }
        i = i + 1;
    }
    None
}

/// Whether a compound has an entry with key `k`.
pub fn contains_key(c: &Vec<(String, Nbt)>, k: &str) -> (r: bool)
    ensures
        r == has_key(cv(c@), k@),
        r == cget(cv(c@), k@) is Some,
{
    find_key(c, k).is_some()
}

/// The value stored under `k`.
pub fn get<'a>(c: &'a Vec<(String, Nbt)>, k: &str) -> (r: Option<&'a Nbt>)
    ensures
        match r {
            Some(v) => cget(cv(c@), k@) == Some(nv(*v)),
            None => cget(cv(c@), k@) is None,
        },
{
    proof {
        lemma_cv(c@);
    }
    match find_key(c, k) {
        Some(i) => Some(&c[i].1),
        None => None,
    }
}

/// Replaces the value of the entry at position `i`, keeping its key and place.
pub(crate) fn set_value_at(c: &mut Vec<(String, Nbt)>, i: usize, v: Nbt)
    requires
        i < old(c).len(),
    ensures
        cv(final(c)@) == cv(old(c)@).update(i as int, (cv(old(c)@)[i as int].0, nv(v))),
        final(c)@.len() == old(c)@.len(),
{
    proof {
        lemma_cv(old(c)@);
    }
    let (key, _old) = c.remove(i);
    c.insert(i, (key, v));
    proof {
        lemma_cv(c@);
        assert(cv(c@) =~= cv(old(c)@).update(i as int, (cv(old(c)@)[i as int].0, nv(v))));
    }
}

/// Stores `v` under `k` (replacing in place, or appending).
pub fn insert(c: &mut Vec<(String, Nbt)>, k: &str, v: Nbt)
    ensures
        cv(final(c)@) == cins(cv(old(c)@), k@, nv(v)),
{
    proof {
        lemma_cv(old(c)@);
    }
    match find_key(c, k) {
        Some(i) => {
            set_value_at(c, i, v);
        },
        None => {
            let key = String::from_str(k);
            proof {
                lemma_cv_push(c@, (key, v));
            }
            c.push((key, v));
        },
    }
}

/// Removes the entry with key `k` and hands back its value.
pub fn remove(c: &mut Vec<(String, Nbt)>, k: &str) -> (r: Option<Nbt>)
    ensures
        cv(final(c)@) == crem(cv(old(c)@), k@),
        match r {
            Some(v) => cget(cv(old(c)@), k@) == Some(nv(v)),
            None => cget(cv(old(c)@), k@) is None,
        },
{
    proof {
        lemma_cv(old(c)@);
    }
    match find_key(c, k) {
        Some(i) => {
            let (_key, v) = c.remove(i);
            proof {
                lemma_cv(c@);
                assert(cv(c@) =~= cv(old(c)@).remove(i as int));
            }
            Some(v)
        },
        None => None,
    }
}

/// Takes the value out of the entry with key `k`, leaving a placeholder byte in its
/// place; `restore` puts the (possibly changed) value back.
pub(crate) fn take(c: &mut Vec<(String, Nbt)>, k: &str) -> (r: Option<(usize, Nbt)>)
    ensures
        match r {
            Some((i, v)) => {
                &&& has_key(cv(old(c)@), k@)
                &&& i == first(cv(old(c)@), k@)
                &&& cget(cv(old(c)@), k@) == Some(nv(v))
                &&& i < final(c)@.len() == old(c)@.len()
                &&& final(c)@[i as int].0@ == k@
                &&& forall|j: int| 0 <= j < old(c)@.len() && j != i ==> final(c)@[j] == old(c)@[j]
            },
            None => !has_key(cv(old(c)@), k@) && final(c)@ == old(c)@,
        },
{
    proof {
        lemma_cv(old(c)@);
    }
    match find_key(c, k) {
        Some(i) => {
            let (key, v) = c.remove(i);
            c.insert(i, (key, Nbt::Byte(0)));
            proof {
                lemma_first(cv(old(c)@), k@);
            }
            Some((i, v))
        },
        None => None,
    }
}

/// Puts a value back under the key it was taken from.
pub(crate) fn restore(c: &mut Vec<(String, Nbt)>, i: usize, v: Nbt, Ghost(before): Ghost<Seq<(String, Nbt)>>, Ghost(k): Ghost<Seq<char>>)
    requires
        has_key(cv(before), k),
        i == first(cv(before), k),
        i < old(c)@.len() == before.len(),
        old(c)@[i as int].0@ == k,
        forall|j: int| 0 <= j < before.len() && j != i ==> old(c)@[j] == before[j],
    ensures
        cv(final(c)@) == cins(cv(before), k, nv(v)),
{
    proof {
        lemma_cv(before);
        lemma_cv(old(c)@);
        lemma_first(cv(before), k);
    }
    set_value_at(c, i, v);
    proof {
        lemma_cv(c@);
        assert(cv(c@) =~= cv(before).update(i as int, (k, nv(v))));
    }
}


/// Applies `f` to the value stored under `k`, if there is one.
pub open spec fn cmod(c: Entries, k: Seq<char>, f: spec_fn(NbtV) -> NbtV) -> Entries {
    match cget(c, k) {
        Some(v) => cins(c, k, f(v)),
        None => c,
    }
}

/// Takes the element at `i` out of a list, leaving a placeholder byte.
pub fn list_take(l: &mut Vec<Nbt>, i: usize) -> (r: Nbt)
    requires
        i < old(l).len(),
    ensures
        r == old(l)@[i as int],
        final(l)@ == old(l)@.update(i as int, Nbt::Byte(0)),
{
    let mut x = Nbt::Byte(0);
    std::mem::swap(&mut l[i], &mut x);
    x
}

/// Takes the entry at `i` out of a compound, leaving an empty key and a placeholder byte.
pub fn entry_take(c: &mut Vec<(String, Nbt)>, i: usize) -> (r: (String, Nbt))
    requires
        i < old(c).len(),
    ensures
        r == old(c)@[i as int],
        final(c)@.len() == old(c)@.len(),
        forall|j: int| 0 <= j < old(c)@.len() && j != i ==> final(c)@[j] == old(c)@[j],
{
    let mut x = (String::new(), Nbt::Byte(0));
    std::mem::swap(&mut c[i], &mut x);
    x
}

/// The value of an empty compound.
pub fn empty_compound() -> (r: Nbt)
    ensures
        nv(r) == NbtV::Compound(Seq::empty()),
{
    let v: Vec<(String, Nbt)> = Vec::new();
    proof {
        lemma_cv_empty();
    }
    Nbt::Compound(v)
}

/// Storing back the value already under a key changes nothing.
pub proof fn lemma_cins_same(c: Entries, k: Seq<char>)
    requires
        has_key(c, k),
    ensures
        cins(c, k, cget(c, k).unwrap()) == c,
{
    lemma_first(c, k);
    assert(cins(c, k, cget(c, k).unwrap()) =~= c);
}

pub proof fn lemma_lv_drop_last(s: Seq<Nbt>)
    requires
        s.len() > 0,
    ensures
        lv(s.drop_last()) == lv(s).drop_last(),
        lv(s).last() == nv(s.last()),
        lv(s).len() == s.len(),
{
    assert(lv(s.drop_last()) =~= lv(s).drop_last());
}

pub proof fn lemma_cv_drop_last(s: Seq<(String, Nbt)>)
    requires
        s.len() > 0,
    ensures
        cv(s.drop_last()) == cv(s).drop_last(),
        cv(s).last() == (s.last().0@, nv(s.last().1)),
        cv(s).len() == s.len(),
{
    assert(cv(s.drop_last()) =~= cv(s).drop_last());
}

/// An empty list.
pub fn empty_list() -> (r: Vec<Nbt>)
    ensures
        lv(r@) == Seq::<NbtV>::empty(),
        r@.len() == 0,
{
    let v: Vec<Nbt> = Vec::new();
    proof {
        lemma_lv_empty();
    }
    v
}

/// An empty entry list.
pub fn empty_entries() -> (r: Vec<(String, Nbt)>)
    ensures
        cv(r@) == Seq::<(Seq<char>, NbtV)>::empty(),
        r@.len() == 0,
{
    let v: Vec<(String, Nbt)> = Vec::new();
    proof {
        lemma_cv_empty();
    }
    v
}

/// Appends a value to a list.
pub fn list_push(l: &mut Vec<Nbt>, v: Nbt)
    ensures
        lv(final(l)@) == lv(old(l)@).push(nv(v)),
{
    proof {
        lemma_lv_push(l@, v);
    }
    l.push(v);
}

/// Reading a key right after storing under it gives the stored value.
pub proof fn lemma_cget_cins_same(c: Entries, k: Seq<char>, v: NbtV)
    ensures
        cget(cins(c, k, v), k) == Some(v),
{
    let d = cins(c, k, v);
    if has_key(c, k) {
        lemma_first(c, k);
        let f = first(c, k);
        assert(is_first(d, k, f));
        lemma_first_unique(d, k, f);
    } else {
        let f = c.len() as int;
        assert forall|j: int| 0 <= j < f implies #[trigger] d[j].0 != k by {
            assert(d[j] == c[j]);
        }
        assert(is_first(d, k, f));
        lemma_first_unique(d, k, f);
    }
}

/// Storing under one key leaves what another key reads unchanged.
pub proof fn lemma_cget_cins_other(c: Entries, j: Seq<char>, v: NbtV, k: Seq<char>)
    requires
        j != k,
    ensures
        cget(cins(c, j, v), k) == cget(c, k),
{
    let d = cins(c, j, v);
    if has_key(c, j) {
        lemma_first(c, j);
    }
    if has_key(c, k) {
        lemma_first(c, k);
        let f = first(c, k);
        assert(d[f] == c[f]);
        assert forall|i: int| 0 <= i < f implies #[trigger] d[i].0 != k by {
            assert(d[i].0 == c[i].0 || d[i].0 == j);
        }
        assert(is_first(d, k, f));
        lemma_first_unique(d, k, f);
    } else {
        if has_key(d, k) {
            let w = choose|i: int| 0 <= i < d.len() && #[trigger] d[i].0 == k;
            assert(w < c.len() && c[w].0 == k);
        }
    }
}

/// Removing one key leaves what another key reads unchanged.
pub proof fn lemma_cget_crem_other(c: Entries, j: Seq<char>, k: Seq<char>)
    requires
        j != k,
    ensures
        cget(crem(c, j), k) == cget(c, k),
{
    if has_key(c, j) {
        lemma_first(c, j);
        let fj = first(c, j);
        let d = c.remove(fj);
        if has_key(c, k) {
            lemma_first(c, k);
            let f = first(c, k);
            let g = if f < fj { f } else { f - 1 };
            assert(d[g] == c[f]);
            assert forall|i: int| 0 <= i < g implies #[trigger] d[i].0 != k by {
                if i < fj {
                    assert(d[i] == c[i]);
                } else {
                    assert(d[i] == c[i + 1]);
                }
            }
            assert(is_first(d, k, g));
            lemma_first_unique(d, k, g);
        } else {
            if has_key(d, k) {
                let w = choose|i: int| 0 <= i < d.len() && #[trigger] d[i].0 == k;
                if w < fj {
                    assert(c[w].0 == k);
                } else {
                    assert(c[w + 1].0 == k);
                }
            }
        }
    }
}

/// No key occurs twice.
pub open spec fn unique_keys(c: Entries) -> bool {
    forall|a: int, b: int| 0 <= a < b < c.len() ==> #[trigger] c[a].0 != #[trigger] c[b].0
}

/// Setting a key keeps a compound free of repeated keys.
pub broadcast proof fn lemma_cins_keeps_unique(c: Entries, k: Seq<char>, v: NbtV)
    requires
        unique_keys(c),
    ensures
        #[trigger] unique_keys(cins(c, k, v)),
{
    lemma_cins_unique(c, k, v);
}

/// Removing a key keeps a compound free of repeated keys.
pub broadcast proof fn lemma_crem_keeps_unique(c: Entries, k: Seq<char>)
    requires
        unique_keys(c),
    ensures
        #[trigger] unique_keys(crem(c, k)),
{
    lemma_crem_unique(c, k);
}

/// In a compound without repeated keys, a removed key reads as absent.
pub proof fn lemma_cget_crem_same(c: Entries, k: Seq<char>)
    requires
        unique_keys(c),
    ensures
        cget(crem(c, k), k) is None,
{
    if has_key(c, k) {
        lemma_first(c, k);
        let f = first(c, k);
        let d = c.remove(f);
        if has_key(d, k) {
            let w = choose|i: int| 0 <= i < d.len() && #[trigger] d[i].0 == k;
            if w < f {
                assert(c[w].0 == k);
            } else {
                assert(c[w + 1].0 == k);
                assert(c[f].0 == c[w + 1].0);
            }
        }
    }
}

/// Storing keeps keys unique.
pub proof fn lemma_cins_unique(c: Entries, k: Seq<char>, v: NbtV)
    requires
        unique_keys(c),
    ensures
        unique_keys(cins(c, k, v)),
{
    let d = cins(c, k, v);
    if has_key(c, k) {
        lemma_first(c, k);
        let f = first(c, k);
        assert forall|a: int, b: int| 0 <= a < b < d.len() implies #[trigger] d[a].0 != #[trigger] d[b].0 by {
            if a == f {
                assert(c[b].0 != c[f].0);
            } else if b == f {
                assert(c[a].0 != c[f].0);
            } else {
                assert(c[a].0 != c[b].0);
            }
        }
    } else {
        assert forall|a: int, b: int| 0 <= a < b < d.len() implies #[trigger] d[a].0 != #[trigger] d[b].0 by {
            if b == c.len() {
                assert(c[a].0 != k);
            } else {
                assert(c[a].0 != c[b].0);
            }
        }
    }
}

/// Removing keeps keys unique.
pub proof fn lemma_crem_unique(c: Entries, k: Seq<char>)
    requires
        unique_keys(c),
    ensures
        unique_keys(crem(c, k)),
{
    if has_key(c, k) {
        lemma_first(c, k);
        let f = first(c, k);
        let d = c.remove(f);
        assert forall|a: int, b: int| 0 <= a < b < d.len() implies #[trigger] d[a].0 != #[trigger] d[b].0 by {
            let a2 = if a < f { a } else { a + 1 };
            let b2 = if b < f { b } else { b + 1 };
            assert(d[a] == c[a2] && d[b] == c[b2]);
            assert(c[a2].0 != c[b2].0);
        }
    }
}

} // verus!
