//! The Minecraft versions the converter knows, with their data versions: the older
//! ones are conversion targets, the 26.x ones are inputs.
use vstd::prelude::*;
use crate::text::str_eq;

verus! {

/// A release and its data version.
#[derive(Debug, Clone, Copy, PartialEq, Eq)]
pub struct VersionInfo {
    pub name: &'static str,
    pub data_version: i32,
}

/// The data version of 26.1, the first release with the new world layout.
pub const DV_26_1: i32 = 4786;

/// A version as a name and a data version.
pub open spec fn info_view(v: VersionInfo) -> (Seq<char>, i32) {
    (v.name@, v.data_version)
}

/// The known versions, oldest first.
pub open spec fn version_table() -> Seq<(Seq<char>, i32)> {
    seq![
        ("1.18.2"@, 2975i32),
        ("1.19.4"@, 3337i32),
        ("1.20.1"@, 3465i32),
        ("1.20.4"@, 3700i32),
        ("1.20.6"@, 3839i32),
        ("1.21"@, 3953i32),
        ("1.21.1"@, 3955i32),
        ("1.21.3"@, 4082i32),
        ("1.21.4"@, 4189i32),
        ("1.21.5"@, 4325i32),
        ("1.21.6"@, 4435i32),
        ("1.21.7"@, 4438i32),
        ("1.21.8"@, 4440i32),
        ("1.21.9"@, 4554i32),
        ("1.21.10"@, 4556i32),
        ("1.21.11"@, 4671i32),
        ("26.1"@, 4786i32),
        ("26.1.1"@, 4788i32),
        ("26.1.2"@, 4790i32),
        ("26.2"@, 4903i32),
    ]
}

/// The first entry of `t` with the name `name`.
pub open spec fn find_name(t: Seq<(Seq<char>, i32)>, name: Seq<char>) -> Option<(Seq<char>, i32)>
    decreases t.len(),
{
    if t.len() == 0 {
        None
    } else if t[0].0 == name {
        Some(t[0])
    } else {
        find_name(t.subrange(1, t.len() as int), name)
    }
}

/// The first entry of `t` with the data version `dv`.
pub open spec fn find_dv(t: Seq<(Seq<char>, i32)>, dv: i32) -> Option<(Seq<char>, i32)>
    decreases t.len(),
{
    if t.len() == 0 {
        None
    } else if t[0].1 == dv {
        Some(t[0])
    } else {
        find_dv(t.subrange(1, t.len() as int), dv)
    }
}

/// A version can be a conversion target when it is older than 26.1.
pub open spec fn supported_spec(dv: i32) -> bool {
    dv < DV_26_1
}

/// The table of known versions, oldest first.
pub fn versions() -> (r: Vec<VersionInfo>)
    ensures
        r@.len() == version_table().len(),
        forall|i: int| 0 <= i < r@.len() ==> #[trigger] info_view(r@[i]) == version_table()[i],
{
    let mut v: Vec<VersionInfo> = Vec::new();
    v.push(VersionInfo { name: "1.18.2", data_version: 2975 });
    v.push(VersionInfo { name: "1.19.4", data_version: 3337 });
    v.push(VersionInfo { name: "1.20.1", data_version: 3465 });
    v.push(VersionInfo { name: "1.20.4", data_version: 3700 });
    v.push(VersionInfo { name: "1.20.6", data_version: 3839 });
    v.push(VersionInfo { name: "1.21", data_version: 3953 });
    v.push(VersionInfo { name: "1.21.1", data_version: 3955 });
    v.push(VersionInfo { name: "1.21.3", data_version: 4082 });
    v.push(VersionInfo { name: "1.21.4", data_version: 4189 });
    v.push(VersionInfo { name: "1.21.5", data_version: 4325 });
    v.push(VersionInfo { name: "1.21.6", data_version: 4435 });
    v.push(VersionInfo { name: "1.21.7", data_version: 4438 });
    v.push(VersionInfo { name: "1.21.8", data_version: 4440 });
    v.push(VersionInfo { name: "1.21.9", data_version: 4554 });
    v.push(VersionInfo { name: "1.21.10", data_version: 4556 });
    v.push(VersionInfo { name: "1.21.11", data_version: 4671 });
    v.push(VersionInfo { name: "26.1", data_version: 4786 });
    v.push(VersionInfo { name: "26.1.1", data_version: 4788 });
    v.push(VersionInfo { name: "26.1.2", data_version: 4790 });
    v.push(VersionInfo { name: "26.2", data_version: 4903 });
    v
}

/// The version with the given name.
pub fn find(name: &str) -> (r: Option<VersionInfo>)
    ensures
        match r {
            Some(v) => find_name(version_table(), name@) == Some(info_view(v)),
            None => find_name(version_table(), name@) is None,
        },
{
    let table = versions();
    let n = table.len();
    let mut i: usize = 0;
    assert(version_table().subrange(0, n as int) =~= version_table());
    while i < n
        invariant
            n == table@.len() == version_table().len(),
            i <= n,
            forall|j: int| 0 <= j < n ==> #[trigger] info_view(table@[j]) == version_table()[j],
            find_name(version_table(), name@) == find_name(
                version_table().subrange(i as int, n as int),
                name@,
            ),
        decreases n - i,
    {
        let ghost rest = version_table().subrange(i as int, n as int);
        assert(rest.subrange(1, rest.len() as int) =~= version_table().subrange(i + 1, n as int));
        assert(rest[0] == info_view(table@[i as int]));
        if str_eq(table[i].name, name) {
            return Some(table[i]);
        }
        i = i + 1;
    }
    None
}

/// The version with the given data version.
pub fn from_data_version(dv: i32) -> (r: Option<VersionInfo>)
    ensures
        match r {
            Some(v) => find_dv(version_table(), dv) == Some(info_view(v)),
            None => find_dv(version_table(), dv) is None,
        },
{
    let table = versions();
    let n = table.len();
    let mut i: usize = 0;
    assert(version_table().subrange(0, n as int) =~= version_table());
    while i < n
        invariant
            n == table@.len() == version_table().len(),
            i <= n,
            forall|j: int| 0 <= j < n ==> #[trigger] info_view(table@[j]) == version_table()[j],
            find_dv(version_table(), dv) == find_dv(version_table().subrange(i as int, n as int), dv),
        decreases n - i,
    {
        let ghost rest = version_table().subrange(i as int, n as int);
        assert(rest.subrange(1, rest.len() as int) =~= version_table().subrange(i + 1, n as int));
        assert(rest[0] == info_view(table@[i as int]));
        if table[i].data_version == dv {
            return Some(table[i]);
        }
        i = i + 1;
    }
    None
}

/// Whether the version can be a conversion target (it is older than 26.1).
pub fn is_supported_target(v: VersionInfo) -> (r: bool)
    ensures
        r == supported_spec(v.data_version),
{
    v.data_version < DV_26_1
}

/// A name that the lookup finds belongs to the entry found.
pub proof fn lemma_find_name_matches(t: Seq<(Seq<char>, i32)>, name: Seq<char>)
    ensures
        find_name(t, name) matches Some(e) ==> e.0 == name && t.contains(e),
        find_name(t, name) is None <==> !(exists|i: int| 0 <= i < t.len() && #[trigger] t[i].0 == name),
    decreases t.len(),
{
    if t.len() > 0 {
        let rest = t.subrange(1, t.len() as int);
        lemma_find_name_matches(rest, name);
        if t[0].0 != name {
            assert forall|i: int| 0 <= i < t.len() && #[trigger] t[i].0 == name implies 0 <= i - 1
                < rest.len() && rest[i - 1].0 == name by {}
            match find_name(rest, name) {
                Some(e) => {
                    let k = choose|k: int| 0 <= k < rest.len() && rest[k] == e;
                    assert(t[k + 1] == e);
                },
                None => {},
            }
        } else {
            assert(t[0] == t[0]);
        }
    }
}

/// A data version that the lookup finds belongs to the entry found.
pub proof fn lemma_find_dv_matches(t: Seq<(Seq<char>, i32)>, dv: i32)
    ensures
        find_dv(t, dv) matches Some(e) ==> e.1 == dv && t.contains(e),
        find_dv(t, dv) is None <==> !(exists|i: int| 0 <= i < t.len() && #[trigger] t[i].1 == dv),
    decreases t.len(),
{
    if t.len() > 0 {
        let rest = t.subrange(1, t.len() as int);
        lemma_find_dv_matches(rest, dv);
        if t[0].1 != dv {
            assert forall|i: int| 0 <= i < t.len() && #[trigger] t[i].1 == dv implies 0 <= i - 1
                < rest.len() && rest[i - 1].1 == dv by {}
            match find_dv(rest, dv) {
                Some(e) => {
                    let k = choose|k: int| 0 <= k < rest.len() && rest[k] == e;
                    assert(t[k + 1] == e);
                },
                None => {},
            }
        } else {
            assert(t[0] == t[0]);
        }
    }
}

/// The lookup by data version finds the first entry with it.
proof fn lemma_find_dv_first(t: Seq<(Seq<char>, i32)>, i: int)
    requires
        0 <= i < t.len(),
        forall|j: int| 0 <= j < i ==> t[j].1 != t[i].1,
    ensures
        find_dv(t, t[i].1) == Some(t[i]),
    decreases t.len(),
{
    if i > 0 {
        let rest = t.subrange(1, t.len() as int);
        assert(t[0].1 != t[i].1);
        assert forall|j: int| 0 <= j < i - 1 implies #[trigger] rest[j].1 != rest[i - 1].1 by {
            assert(rest[j] == t[j + 1]);
        }
        lemma_find_dv_first(rest, i - 1);
    }
}

/// A sequence whose data versions grow from each entry to the next grows throughout.
proof fn lemma_increasing(t: Seq<(Seq<char>, i32)>, j: int, i: int)
    requires
        forall|k: int| 0 <= k < t.len() - 1 ==> #[trigger] t[k].1 < t[k + 1].1,
        0 <= j < i < t.len(),
    ensures
        t[j].1 < t[i].1,
    decreases i - j,
{
    if j + 1 < i {
        lemma_increasing(t, j + 1, i);
    }
    assert(t[j].1 < t[j + 1].1);
}

/// Data versions grow strictly along the table.
pub proof fn lemma_table_increasing()
    ensures
        forall|j: int, i: int|
            0 <= j < i < version_table().len() ==> version_table()[j].1 < version_table()[i].1,
{
    let t = version_table();
    assert forall|k: int| 0 <= k < t.len() - 1 implies #[trigger] t[k].1 < t[k + 1].1 by {
        if k == 0 {
        } else if k == 1 {
        } else if k == 2 {
        } else if k == 3 {
        } else if k == 4 {
        } else if k == 5 {
        } else if k == 6 {
        } else if k == 7 {
        } else if k == 8 {
        } else if k == 9 {
        } else if k == 10 {
        } else if k == 11 {
        } else if k == 12 {
        } else if k == 13 {
        } else if k == 14 {
        } else if k == 15 {
        } else if k == 16 {
        } else if k == 17 {
        } else if k == 18 {
        }
    }
    assert forall|j: int, i: int| 0 <= j < i < t.len() implies t[j].1 < t[i].1 by {
        lemma_increasing(t, j, i);
    }
}

/// Each data version names one release: looking up the data version of any entry of
/// the table gives that entry back.
pub proof fn lemma_data_version_roundtrip(i: int)
    requires
        0 <= i < version_table().len(),
    ensures
        find_dv(version_table(), version_table()[i].1) == Some(version_table()[i]),
{
    lemma_table_increasing();
    lemma_find_dv_first(version_table(), i);
}

/// The conversion targets are exactly the releases before 26.1, the first sixteen
/// entries of the table.
pub proof fn lemma_targets_are_prefix(i: int)
    requires
        0 <= i < version_table().len(),
    ensures
        supported_spec(version_table()[i].1) <==> i < 16,
{
    lemma_table_increasing();
    let t = version_table();
    assert(t[15].1 < DV_26_1 && t[16].1 == DV_26_1);
    if i < 15 {
        assert(t[i].1 < t[15].1);
    } else if i > 16 {
        assert(t[16].1 < t[i].1);
    }
}

/// A release name read as numbers separated by dots: the components before the last
/// one (each scaled by a thousand), the digits since the last dot, and the number of
/// dots.
pub open spec fn name_parts(s: Seq<char>) -> (int, int, int)
    decreases s.len(),
{
    if s.len() == 0 {
        (0, 0, 0)
    } else {
        let (acc, cur, dots) = name_parts(s.drop_last());
        if s.last() == '.' {
            (acc * 1000 + cur, 0, dots + 1)
        } else {
            (acc, cur * 10 + (s.last() as int - '0' as int), dots)
        }
    }
}

/// The number `major * 10^6 + minor * 10^3 + patch` of a release name (a missing patch
/// counts as 0).
pub open spec fn version_key(s: Seq<char>) -> int {
    let (acc, cur, dots) = name_parts(s);
    if dots == 1 {
        (acc * 1000 + cur) * 1000
    } else {
        acc * 1000 + cur
    }
}

proof fn lemma_keys_increasing(t: Seq<(Seq<char>, i32)>, j: int, i: int)
    requires
        forall|k: int| 0 <= k < t.len() - 1 ==> #[trigger] version_key(t[k].0) < version_key(t[k + 1].0),
        0 <= j < i < t.len(),
    ensures
        version_key(t[j].0) < version_key(t[i].0),
    decreases i - j,
{
    if j + 1 < i {
        lemma_keys_increasing(t, j + 1, i);
    }
    assert(version_key(t[j].0) < version_key(t[j + 1].0));
}

/// The releases of the table come in the order of their version numbers, so their
/// names differ.
#[verifier::rlimit(50)]
pub proof fn lemma_names_increasing()
    ensures
        forall|j: int, i: int|
            0 <= j < i < version_table().len() ==> version_key(version_table()[j].0) < version_key(
                version_table()[i].0,
            ),
{
    let t = version_table();
    reveal_strlit("1.18.2");
    reveal_strlit("1.19.4");
    reveal_strlit("1.20.1");
    reveal_strlit("1.20.4");
    reveal_strlit("1.20.6");
    reveal_strlit("1.21");
    reveal_strlit("1.21.1");
    reveal_strlit("1.21.3");
    reveal_strlit("1.21.4");
    reveal_strlit("1.21.5");
    reveal_strlit("1.21.6");
    reveal_strlit("1.21.7");
    reveal_strlit("1.21.8");
    reveal_strlit("1.21.9");
    reveal_strlit("1.21.10");
    reveal_strlit("1.21.11");
    reveal_strlit("26.1");
    reveal_strlit("26.1.1");
    reveal_strlit("26.1.2");
    reveal_strlit("26.2");
    reveal_with_fuel(name_parts, 8);
    assert forall|k: int| 0 <= k < t.len() - 1 implies #[trigger] version_key(t[k].0) < version_key(t[k + 1].0) by {
        if k == 0 {
            assert(version_key(t[0].0) < version_key(t[1].0));
        } else if k == 1 {
            assert(version_key(t[1].0) < version_key(t[2].0));
        } else if k == 2 {
            assert(version_key(t[2].0) < version_key(t[3].0));
        } else if k == 3 {
            assert(version_key(t[3].0) < version_key(t[4].0));
        } else if k == 4 {
            assert(version_key(t[4].0) < version_key(t[5].0));
        } else if k == 5 {
            assert(version_key(t[5].0) < version_key(t[6].0));
        } else if k == 6 {
            assert(version_key(t[6].0) < version_key(t[7].0));
        } else if k == 7 {
            assert(version_key(t[7].0) < version_key(t[8].0));
        } else if k == 8 {
            assert(version_key(t[8].0) < version_key(t[9].0));
        } else if k == 9 {
            assert(version_key(t[9].0) < version_key(t[10].0));
        } else if k == 10 {
            assert(version_key(t[10].0) < version_key(t[11].0));
        } else if k == 11 {
            assert(version_key(t[11].0) < version_key(t[12].0));
        } else if k == 12 {
            assert(version_key(t[12].0) < version_key(t[13].0));
        } else if k == 13 {
            assert(version_key(t[13].0) < version_key(t[14].0));
        } else if k == 14 {
            assert(version_key(t[14].0) < version_key(t[15].0));
        } else if k == 15 {
            assert(version_key(t[15].0) < version_key(t[16].0));
        } else if k == 16 {
            assert(version_key(t[16].0) < version_key(t[17].0));
        } else if k == 17 {
            assert(version_key(t[17].0) < version_key(t[18].0));
        } else if k == 18 {
            assert(version_key(t[18].0) < version_key(t[19].0));
        }
    }
    assert forall|j: int, i: int| 0 <= j < i < t.len() implies version_key(t[j].0) < version_key(t[i].0) by {
        lemma_keys_increasing(t, j, i);
    }
}

/// The lookup by name finds the first entry with it.
proof fn lemma_find_name_first(t: Seq<(Seq<char>, i32)>, i: int)
    requires
        0 <= i < t.len(),
        forall|j: int| 0 <= j < i ==> t[j].0 != t[i].0,
    ensures
        find_name(t, t[i].0) == Some(t[i]),
    decreases t.len(),
{
    if i > 0 {
        let rest = t.subrange(1, t.len() as int);
        assert(t[0].0 != t[i].0);
        assert forall|j: int| 0 <= j < i - 1 implies #[trigger] rest[j].0 != rest[i - 1].0 by {
            assert(rest[j] == t[j + 1]);
        }
        lemma_find_name_first(rest, i - 1);
    }
}

/// Each release name names one release: looking up the name of any entry of the table
/// gives that entry back.
pub proof fn lemma_name_roundtrip(i: int)
    requires
        0 <= i < version_table().len(),
    ensures
        find_name(version_table(), version_table()[i].0) == Some(version_table()[i]),
{
    lemma_names_increasing();
    lemma_find_name_first(version_table(), i);
}

} // verus!
