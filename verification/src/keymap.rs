//! Renaming tables: lists of `(new name, legacy name)` pairs, searched front to back.
use vstd::prelude::*;
use crate::text::str_eq;

verus! {

/// A table as pairs of texts.
pub open spec fn table_view(t: Seq<(&'static str, &'static str)>) -> Seq<(Seq<char>, Seq<char>)> {
    Seq::new(t.len(), |i: int| (t[i].0@, t[i].1@))
}

/// The legacy name of the first pair whose new name is `k`.
pub open spec fn key_lookup(t: Seq<(Seq<char>, Seq<char>)>, k: Seq<char>) -> Option<Seq<char>>
    decreases t.len(),
{
    if t.len() == 0 {
        None
    } else if t[0].0 == k {
        Some(t[0].1)
    } else {
        key_lookup(t.subrange(1, t.len() as int), k)
    }
}

/// Looks `k` up in the table.
pub fn lookup(t: &Vec<(&'static str, &'static str)>, k: &str) -> (r: Option<&'static str>)
    ensures
        match r {
            Some(v) => key_lookup(table_view(t@), k@) == Some(v@),
            None => key_lookup(table_view(t@), k@) is None,
        },
{
    let ghost tv = table_view(t@);
    let n = t.len();
    let mut i: usize = 0;
    assert(tv.subrange(0, n as int) =~= tv);
    while i < n
        invariant
            n == t@.len() == tv.len(),
            tv == table_view(t@),
            i <= n,
            key_lookup(tv, k@) == key_lookup(tv.subrange(i as int, n as int), k@),
        decreases n - i,
    {
        let ghost rest = tv.subrange(i as int, n as int);
        assert(rest.subrange(1, rest.len() as int) =~= tv.subrange(i + 1, n as int));
        assert(rest[0] == (t@[i as int].0@, t@[i as int].1@));
        if str_eq(t[i].0, k) {
            return Some(t[i].1);
        }
        i = i + 1;
    }
    None
}

/// Whether `k` is one of the names in `names`.
pub fn is_one_of(names: &Vec<&'static str>, k: &str) -> (r: bool)
    ensures
        r == (exists|i: int| 0 <= i < names@.len() && #[trigger] names@[i]@ == k@),
{
    let n = names.len();
    let mut i: usize = 0;
    while i < n
        invariant
            n == names@.len(),
            i <= n,
            forall|j: int| 0 <= j < i ==> #[trigger] names@[j]@ != k@,
        decreases n - i,
    {
        if str_eq(names[i], k) {
            return true;
        }
        i = i + 1;
    }
    false
}

} // verus!
