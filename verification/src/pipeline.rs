//! The checks and bookkeeping around a conversion: which target version is asked
//! for, whether the input world can be converted to it, the report's opening and
//! closing warnings, and the plan of a batch of worlds. The steps themselves (layout,
//! `level.dat`, chunks) are run by the caller with the functions of the other modules.
use vstd::prelude::*;
use crate::error::Error;
use crate::layout::Layout;
use crate::nbt::{cget, get, nv, Nbt, NbtV};
use crate::report::{dedup, same_other_counters, warnings_of, Report};
use crate::text::{append, i64_to_decimal, int_decimal, string_of};
use crate::version::{find, find_name, from_data_version, find_dv, info_view, is_supported_target, version_table, VersionInfo, DV_26_1};

verus! {

/// What to convert: an input world folder into an output folder, for a target
/// version, with an optional block allowlist file.
pub struct ConvertOptions {
    pub input: String,
    pub output: String,
    pub target: String,
    pub block_table: Option<String>,
}

/// What `level.dat` says of a world.
#[derive(Debug)]
pub struct WorldInfo {
    pub layout: Layout,
    pub data_version: Option<i32>,
    pub version_name: Option<&'static str>,
    pub level_name: Option<String>,
}

/// The `Data` compound of a `level.dat` root.
pub open spec fn level_data_of(root: NbtV) -> Option<Seq<(Seq<char>, NbtV)>> {
    match root {
        NbtV::Compound(m) => match cget(m, "Data"@) {
            Some(NbtV::Compound(d)) => Some(d),
            _ => None,
        },
        _ => None,
    }
}

/// The world's data version, from `Data.DataVersion`.
pub open spec fn data_version_of(root: NbtV) -> Option<i32> {
    match level_data_of(root) {
        Some(d) => match cget(d, "DataVersion"@) {
            Some(NbtV::Int(dv)) => Some(dv),
            _ => None,
        },
        None => None,
    }
}

/// The world's name, from `Data.LevelName`.
pub open spec fn level_name_of(root: NbtV) -> Option<Seq<char>> {
    match level_data_of(root) {
        Some(d) => match cget(d, "LevelName"@) {
            Some(NbtV::String(s)) => Some(s),
            _ => None,
        },
        None => None,
    }
}

/// What `level.dat` (its parsed root) says of a world with the given layout: data
/// version, the name of the release with that data version, and the world's name.
pub fn inspect(layout: Layout, root: &Nbt) -> (r: WorldInfo)
    ensures
        r.layout == layout,
        r.data_version == data_version_of(nv(*root)),
        match r.version_name {
            Some(n) => r.data_version matches Some(dv) && find_dv(version_table(), dv) matches Some(e) && e.0 == n@,
            None => r.data_version matches Some(dv) ==> find_dv(version_table(), dv) is None,
        },
        match r.level_name {
            Some(s) => level_name_of(nv(*root)) == Some(s@),
            None => level_name_of(nv(*root)) is None,
        },
{
    let mut data_version: Option<i32> = None;
    let mut level_name: Option<String> = None;
    match root {
        Nbt::Compound(m) => match get(m, "Data") {
            Some(Nbt::Compound(d)) => {
                match get(d, "DataVersion") {
                    Some(Nbt::Int(dv)) => {
                        data_version = Some(*dv);
                    },
                    _ => {},
                }
                match get(d, "LevelName") {
                    Some(Nbt::String(s)) => {
                        level_name = Some(string_of(s.as_str()));
                    },
                    _ => {},
                }
            },
            _ => {},
        },
        _ => {},
    }
    let version_name = match data_version {
        Some(dv) => match from_data_version(dv) {
            Some(v) => Some(v.name),
            None => None,
        },
        None => None,
    };
    WorldInfo { layout, data_version, version_name, level_name }
}

/// The error for a target name that is not a known version.
pub open spec fn unknown_target_message(target: Seq<char>) -> Seq<char> {
    "'"@ + target + "' — unknown version. Run `mcconvert versions` for the list."@
}

/// The error for a known version that is an input only.
pub open spec fn input_only_message(name: Seq<char>) -> Seq<char> {
    "'"@ + name + "' — 26.x versions are inputs, not conversion targets (supported: 1.18.2–1.21.11)."@
}

/// The version to convert to: the one named `target`, unless it is unknown or not
/// older than 26.1 (an unsupported-target error each).
pub fn resolve_target(target: &str) -> (r: Result<VersionInfo, Error>)
    ensures
        match find_name(version_table(), target@) {
            None => r matches Err(Error::UnsupportedTarget(m)) && m@ == unknown_target_message(target@),
            Some(e) => if e.1 < DV_26_1 {
                r matches Ok(v) && info_view(v) == e
            } else {
                r matches Err(Error::UnsupportedTarget(m)) && m@ == input_only_message(e.0)
            },
        },
{
    match find(target) {
        None => {
            let mut m = string_of("'");
            append(&mut m, target);
            append(&mut m, "' — unknown version. Run `mcconvert versions` for the list.");
            Err(Error::UnsupportedTarget(m))
        },
        Some(v) => if is_supported_target(v) {
            Ok(v)
        } else {
            let mut m = string_of("'");
            append(&mut m, v.name);
            append(&mut m, "' — 26.x versions are inputs, not conversion targets (supported: 1.18.2–1.21.11).");
            Err(Error::UnsupportedTarget(m))
        },
    }
}

/// The reason an input world cannot be converted to the target, if any: it must use
/// the 26.x layout, and a data version it records must be newer than the target's and
/// at least 26.1's.
pub open spec fn world_check(layout: Layout, dv: Option<i32>, target: VersionInfo) -> Option<Seq<char>> {
    if layout != Layout::New26 {
        Some("input world does not use the 26.x layout (it already looks like the legacy structure)"@)
    } else {
        match dv {
            Some(d) => if d <= target.data_version {
                Some(
                    "input world (DataVersion "@ + int_decimal(d as int) + ") is not newer than the target ("@
                        + target.name@ + ", DataVersion "@ + int_decimal(target.data_version as int) + ")"@,
                )
            } else if d < DV_26_1 {
                Some(
                    "input world (DataVersion "@ + int_decimal(d as int) + ") is older than 26.1 (DataVersion "@
                        + int_decimal(DV_26_1 as int) + ")"@,
                )
            } else {
                None
            },
            None => None,
        }
    }
}

/// Checks that the world can be converted to the target (see [`world_check`]); an
/// invalid world error with the reason when it cannot.
pub fn check_world(info: &WorldInfo, target: VersionInfo) -> (r: Result<(), Error>)
    ensures
        match world_check(info.layout, info.data_version, target) {
            None => r is Ok,
            Some(m) => r matches Err(Error::InvalidWorld(msg)) && msg@ == m,
        },
{
    match info.layout {
        Layout::New26 => {},
        Layout::Legacy => {
            return Err(
                Error::InvalidWorld(
                    string_of(
                        "input world does not use the 26.x layout (it already looks like the legacy structure)",
                    ),
                ),
            );
        },
    }
    match info.data_version {
        Some(dv) => {
            if dv <= target.data_version {
                let mut m = string_of("input world (DataVersion ");
                append(&mut m, i64_to_decimal(dv as i64).as_str());
                append(&mut m, ") is not newer than the target (");
                append(&mut m, target.name);
                append(&mut m, ", DataVersion ");
                append(&mut m, i64_to_decimal(target.data_version as i64).as_str());
                append(&mut m, ")");
                return Err(Error::InvalidWorld(m));
            }
            if dv < DV_26_1 {
                let mut m = string_of("input world (DataVersion ");
                append(&mut m, i64_to_decimal(dv as i64).as_str());
                append(&mut m, ") is older than 26.1 (DataVersion ");
                append(&mut m, i64_to_decimal(DV_26_1 as i64).as_str());
                append(&mut m, ")");
                return Err(Error::InvalidWorld(m));
            }
            Ok(())
        },
        None => Ok(()),
    }
}

/// Checks the output folder (shown as `output`): it must not hold anything yet.
pub fn check_output(is_nonempty: bool, output: &str) -> (r: Result<(), Error>)
    ensures
        is_nonempty <==> r is Err,
        r matches Err(Error::Output(m)) ==> m@ == "output folder already exists and is not empty: "@ + output@,
        r matches Err(e) ==> e is Output,
{
    if is_nonempty {
        Err(Error::Output(crate::text::concat2("output folder already exists and is not empty: ", output)))
    } else {
        Ok(())
    }
}

/// The warning of a conversion without a block allowlist.
pub open spec fn no_table_warning() -> Seq<char> {
    "No block allowlist (--block-table) provided; skipping replacement of new 26.x blocks with air. Unknown blocks may remain in the converted world."@
}

/// The warning that closes every conversion.
pub open spec fn closing_warning() -> Seq<char> {
    "Detailed NBT for blocks/items/mobs added in 26.x may be ignored or lost in older versions. Always test the converted world with a copy."@
}

/// The report a conversion starts with: empty, but for a warning when there is no
/// block allowlist.
pub fn start_report(has_block_table: bool) -> (r: Report)
    ensures
        warnings_of(r) == (if has_block_table {
            Seq::<Seq<char>>::empty()
        } else {
            seq![no_table_warning()]
        }),
        r.region_files == 0 && r.chunks_rewritten == 0 && r.blocks_replaced == 0 && r.items_converted == 0
            && r.dropped_data == 0 && r.chunks_skipped == 0 && r.block_entities_added == 0,
{
    let mut report = Report::default();
    assert(warnings_of(report) =~= Seq::<Seq<char>>::empty());
    if !has_block_table {
        report.warn(
            string_of(
                "No block allowlist (--block-table) provided; skipping replacement of new 26.x blocks with air. Unknown blocks may remain in the converted world.",
            ),
        );
        assert(warnings_of(report) =~= seq![no_table_warning()]);
    }
    report
}

/// Closes the report of a successful conversion: the closing warning is added and
/// repeated warnings are dropped (the first of each stays, in order).
pub fn finish_report(report: &mut Report)
    ensures
        warnings_of(*final(report)) == dedup(warnings_of(*old(report)).push(closing_warning())),
        final(report).items_converted == old(report).items_converted,
        final(report).dropped_data == old(report).dropped_data,
        same_other_counters(*old(report), *final(report)),
{
    report.warn(
        string_of(
            "Detailed NBT for blocks/items/mobs added in 26.x may be ignored or lost in older versions. Always test the converted world with a copy.",
        ),
    );
    report.dedup_warnings();
}

// ---------------------------------------------------------------- batches

/// The result of converting one world of a batch.
pub struct BatchOutcome {
    pub world_name: String,
    pub output: String,
    pub result: Result<Report, Error>,
}

/// The name of a world of a batch (its folder's name, `world` without one).
pub open spec fn world_name_of(name: Option<String>) -> Seq<char> {
    match name {
        Some(n) => n@,
        None => "world"@,
    }
}

/// The plan of a batch: for each world folder found (in order), its name and the name
/// of its output folder, `<name> (<target>)`; an invalid world error when the input
/// folder is itself a world (`input` as shown).
pub fn convert_batch(
    input_is_world: bool,
    input: &str,
    worlds: Vec<Option<String>>,
    target: &str,
) -> (r: Result<Vec<(String, String)>, Error>)
    ensures
        input_is_world <==> r is Err,
        r matches Err(Error::InvalidWorld(m)) ==> m@ == "level.dat found directly inside '"@ + input@
            + "'. Put each world in as its own folder (e.g. "@ + input@ + "\\my_world\\level.dat)."@,
        r matches Err(e) ==> e is InvalidWorld,
        r matches Ok(plan) ==> plan@.len() == worlds@.len() && forall|i: int| 0 <= i < worlds@.len()
            ==> (#[trigger] plan@[i]).0@ == world_name_of(worlds@[i]) && plan@[i].1@ == world_name_of(
            worlds@[i],
        ) + " ("@ + target@ + ")"@,
{
    if input_is_world {
        let mut m = string_of("level.dat found directly inside '");
        append(&mut m, input);
        append(&mut m, "'. Put each world in as its own folder (e.g. ");
        append(&mut m, input);
        append(&mut m, "\\my_world\\level.dat).");
        return Err(Error::InvalidWorld(m));
    }
    let mut plan: Vec<(String, String)> = Vec::new();
    let n = worlds.len();
    let mut i: usize = 0;
    while i < n
        invariant
            n == worlds@.len(),
            i <= n,
            plan@.len() == i,
            forall|j: int| 0 <= j < i ==> (#[trigger] plan@[j]).0@ == world_name_of(worlds@[j]) && plan@[j].1@
                == world_name_of(worlds@[j]) + " ("@ + target@ + ")"@,
        decreases n - i,
    {
        let name = match &worlds[i] {
            Some(n) => string_of(n.as_str()),
            None => string_of("world"),
        };
        let mut output = string_of(name.as_str());
        append(&mut output, " (");
        append(&mut output, target);
        append(&mut output, ")");
        plan.push((name, output));
        i = i + 1;
    }
    Ok(plan)
}

/// The number of successful conversions in a batch.
pub open spec fn succeeded(outcomes: Seq<BatchOutcome>) -> nat
    decreases outcomes.len(),
{
    if outcomes.len() == 0 {
        0
    } else {
        succeeded(outcomes.drop_last()) + if outcomes.last().result is Ok {
            1nat
        } else {
            0nat
        }
    }
}

/// Counts the successful conversions of a batch.
pub fn count_succeeded(outcomes: &Vec<BatchOutcome>) -> (r: usize)
    ensures
        r == succeeded(outcomes@),
        r <= outcomes@.len(),
{
    let n = outcomes.len();
    let mut count: usize = 0;
    let mut i: usize = 0;
    while i < n
        invariant
            n == outcomes@.len(),
            i <= n,
            count == succeeded(outcomes@.take(i as int)),
            count <= i,
        decreases n - i,
    {
        assert(outcomes@.take(i + 1).drop_last() =~= outcomes@.take(i as int));
        if outcomes[i].result.is_ok() {
            count = count + 1;
        }
        i = i + 1;
    }
    assert(outcomes@.take(n as int) =~= outcomes@);
    count
}

/// The targets that [`resolve_target`] accepts by name are exactly the first sixteen
/// releases of the table (1.18.2 to 1.21.11): each name finds its own entry, which is
/// older than 26.1 exactly for those.
pub proof fn lemma_accepted_targets(i: int)
    requires
        0 <= i < version_table().len(),
    ensures
        find_name(version_table(), version_table()[i].0) == Some(version_table()[i]),
        version_table()[i].1 < DV_26_1 <==> i < 16,
{
    crate::version::lemma_name_roundtrip(i);
    crate::version::lemma_targets_are_prefix(i);
}

// ---------------------------------------------------------------- the worlds of a batch

/// Byte strings in lexicographic order (a proper prefix comes first).
pub open spec fn bytes_lt(a: Seq<u8>, b: Seq<u8>) -> bool
    decreases a.len(),
{
    if a.len() == 0 {
        b.len() > 0
    } else if b.len() == 0 {
        false
    } else if a[0] != b[0] {
        a[0] < b[0]
    } else {
        bytes_lt(a.drop_first(), b.drop_first())
    }
}

/// Names in the order of their UTF-8 bytes, which is how folder paths are ordered.
pub open spec fn name_lt(a: Seq<char>, b: Seq<char>) -> bool {
    bytes_lt(vstd::utf8::encode_utf8(a), vstd::utf8::encode_utf8(b))
}

/// Each name comes no later than the ones after it.
pub open spec fn names_sorted(s: Seq<Seq<char>>) -> bool {
    forall|p: int, q: int| 0 <= p < q < s.len() ==> !name_lt(#[trigger] s[q], #[trigger] s[p])
}

/// A folder entry as its name, whether it is a folder, and whether it holds a
/// `level.dat` file.
pub open spec fn entries_view(es: Seq<(String, bool, bool)>) -> Seq<(Seq<char>, bool, bool)> {
    Seq::new(es.len(), |i: int| (es[i].0@, es[i].1, es[i].2))
}

/// The names of the entries that are worlds: folders that hold a `level.dat` file.
pub open spec fn world_names(es: Seq<(Seq<char>, bool, bool)>) -> Seq<Seq<char>>
    decreases es.len(),
{
    if es.len() == 0 {
        Seq::empty()
    } else if es.last().1 && es.last().2 {
        world_names(es.drop_last()).push(es.last().0)
    } else {
        world_names(es.drop_last())
    }
}

/// The lexicographic order of byte strings is transitive.
pub proof fn lemma_bytes_lt_transitive(a: Seq<u8>, b: Seq<u8>, c: Seq<u8>)
    requires
        bytes_lt(a, b),
        bytes_lt(b, c),
    ensures
        bytes_lt(a, c),
    decreases a.len(),
{
    if a.len() > 0 && b.len() > 0 && c.len() > 0 && a[0] == b[0] && b[0] == c[0] {
        lemma_bytes_lt_transitive(a.drop_first(), b.drop_first(), c.drop_first());
    }
}

/// No byte string comes before itself.
pub proof fn lemma_bytes_lt_irreflexive(a: Seq<u8>)
    ensures
        !bytes_lt(a, a),
    decreases a.len(),
{
    if a.len() > 0 {
        lemma_bytes_lt_irreflexive(a.drop_first());
    }
}

/// Whether `a` comes before `b` (see [`name_lt`]).
fn name_lt_exec(a: &str, b: &str) -> (r: bool)
    ensures
        r == name_lt(a@, b@),
{
    let x = a.as_bytes();
    let y = b.as_bytes();
    let ghost xs = x@;
    let ghost ys = y@;
    let mut i: usize = 0;
    proof {
        assert(xs.subrange(0, xs.len() as int) =~= xs);
        assert(ys.subrange(0, ys.len() as int) =~= ys);
    }
    while i < x.len() && i < y.len()
        invariant
            xs == x@,
            ys == y@,
            xs == vstd::utf8::encode_utf8(a@),
            ys == vstd::utf8::encode_utf8(b@),
            i <= xs.len(),
            i <= ys.len(),
            bytes_lt(xs, ys) == bytes_lt(xs.subrange(i as int, xs.len() as int), ys.subrange(i as int, ys.len() as int)),
        decreases xs.len() - i,
    {
        let ghost u = xs.subrange(i as int, xs.len() as int);
        let ghost v = ys.subrange(i as int, ys.len() as int);
        if x[i] != y[i] {
            assert(u[0] == x[i as int] && v[0] == y[i as int]);
            return x[i] < y[i];
        }
        proof {
            assert(u.drop_first() =~= xs.subrange(i + 1, xs.len() as int));
            assert(v.drop_first() =~= ys.subrange(i + 1, ys.len() as int));
        }
        i = i + 1;
    }
    i == x.len() && i < y.len()
}

/// The worlds among the entries of a batch's input folder (folders that hold a
/// `level.dat` file), by name, in the order of their names' bytes.
pub fn discover_worlds(entries: Vec<(String, bool, bool)>) -> (r: Vec<String>)
    ensures
        names_sorted(crate::mapping::strings_view(r@)),
        crate::mapping::strings_view(r@).to_multiset() == world_names(entries_view(entries@)).to_multiset(),
{
    broadcast use vstd::seq_lib::group_to_multiset_ensures, vstd::multiset::group_multiset_axioms;
    let ghost all = entries_view(entries@);
    let mut entries = entries;
    let mut out: Vec<String> = Vec::new();
    proof {
        assert(crate::mapping::strings_view(out@) =~= Seq::<Seq<char>>::empty());
        assert(entries_view(entries@) == all);
        assert(Seq::<Seq<char>>::empty().to_multiset().add(world_names(all).to_multiset()) =~= world_names(all).to_multiset());
    }
    while entries.len() > 0
        invariant
            names_sorted(crate::mapping::strings_view(out@)),
            crate::mapping::strings_view(out@).to_multiset().add(world_names(entries_view(entries@)).to_multiset())
                == world_names(all).to_multiset(),
        decreases entries@.len(),
    {
        let ghost before = entries@;
        let ghost sv = crate::mapping::strings_view(out@);
        let (name, is_dir, has_level_dat) = entries.pop().unwrap();
        proof {
            assert(entries_view(entries@) =~= entries_view(before).drop_last());
            assert(entries_view(before).last() == (name@, is_dir, has_level_dat));
        }
        if is_dir && has_level_dat {
            let n = out.len();
            let mut j: usize = 0;
            while j < n && !name_lt_exec(name.as_str(), out[j].as_str())
                invariant
                    n == out@.len(),
                    j <= n,
                    sv == crate::mapping::strings_view(out@),
                    forall|k: int| 0 <= k < j ==> !name_lt(name@, #[trigger] sv[k]),
                decreases n - j,
            {
                j = j + 1;
            }
            let ghost x = name@;
            out.insert(j, name);
            proof {
                let nv2 = crate::mapping::strings_view(out@);
                assert(nv2 =~= sv.insert(j as int, x));
                assert forall|p: int, q: int| 0 <= p < q < nv2.len() implies !name_lt(#[trigger] nv2[q], #[trigger] nv2[p]) by {
                    if q < j {
                        assert(nv2[q] == sv[q] && nv2[p] == sv[p]);
                        assert(!name_lt(sv[q], sv[p]));
                    } else if q == j {
                        assert(nv2[p] == sv[p]);
                        assert(nv2[q] == x);
                        assert(!name_lt(x, sv[p]));
                    } else if p < j {
                        assert(nv2[q] == sv[q - 1]);
                        assert(nv2[p] == sv[p]);
                        assert(!name_lt(sv[q - 1], sv[p]));
                    } else if p == j {
                        assert(nv2[q] == sv[q - 1]);
                        assert(nv2[p] == x);
                        assert(j < n);
                        assert(name_lt(x, sv[j as int]));
                        if name_lt(sv[q - 1], x) {
                            lemma_bytes_lt_transitive(
                                vstd::utf8::encode_utf8(sv[q - 1]),
                                vstd::utf8::encode_utf8(x),
                                vstd::utf8::encode_utf8(sv[j as int]),
                            );
                            if q - 1 == j {
                                lemma_bytes_lt_irreflexive(vstd::utf8::encode_utf8(sv[j as int]));
                            } else {
                                assert(!name_lt(sv[q - 1], sv[j as int]));
                            }
                        }
                    } else {
                        assert(nv2[q] == sv[q - 1]);
                        assert(nv2[p] == sv[p - 1]);
                    }
                }
                vstd::seq_lib::to_multiset_insert(sv, j as int, x);
                vstd::seq_lib::to_multiset_build(world_names(entries_view(entries@)), x);
                assert(world_names(entries_view(before)) == world_names(entries_view(entries@)).push(x));
                assert(nv2.to_multiset().add(world_names(entries_view(entries@)).to_multiset()) =~= sv.to_multiset().add(
                    world_names(entries_view(before)).to_multiset(),
                ));
            }
        } else {
            proof {
                assert(world_names(entries_view(before)) == world_names(entries_view(entries@)));
            }
        }
    }
    proof {
        assert(entries_view(entries@) =~= Seq::<(Seq<char>, bool, bool)>::empty());
        assert(crate::mapping::strings_view(out@).to_multiset().add(Seq::<Seq<char>>::empty().to_multiset())
            =~= crate::mapping::strings_view(out@).to_multiset());
    }
    out
}

} // verus!
