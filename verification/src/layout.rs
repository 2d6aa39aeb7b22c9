//! The folder layouts of a world: 26.x keeps every dimension under
//! `dimensions/<namespace>/<name>` and its players under `players/`, older versions
//! keep the overworld at the root, the Nether in `DIM-1`, the End in `DIM1` and the
//! players in `playerdata`. These functions decide where each entry of a 26.x world
//! goes; reading and copying the files is left to the caller.
use vstd::prelude::*;
use crate::data_files::{
    dim_merge_names, dim_skip_names, is_dim_merge_file, is_dim_skip_file, is_shared_merge_file,
    is_shared_skip_file, shared_merge_names, shared_skip_names,
};
use crate::error::Error;
use crate::keymap::{key_lookup, lookup, table_view};
use crate::report::{same_other_counters, tally, tw, Report};
use crate::text::{append, concat2, str_eq, string_of};

verus! {

/// The folder layout of a world.
#[derive(Debug, Clone, Copy, PartialEq, Eq)]
pub enum Layout {
    /// `dimensions/minecraft/overworld` and friends (26.x).
    New26,
    /// Everything else with a `level.dat` (the older layout).
    Legacy,
}

/// The kind of a dimension.
#[derive(Debug, Clone, Copy, PartialEq, Eq)]
pub enum DimKind {
    Overworld,
    Nether,
    End,
    Custom,
}

/// Where a 26.x dimension folder goes in the older layout.
#[derive(Debug)]
pub struct DimMapping {
    /// The dimension's folder in the input world.
    pub input_dir: String,
    /// The path of its folder in the output world, one component per element (empty
    /// for the world root).
    pub output_rel: Vec<String>,
    pub kind: DimKind,
}

/// The chunk folders of a dimension, converted chunk by chunk.
pub open spec fn chunk_subdir_names() -> Seq<Seq<char>> {
    seq!["region"@, "entities"@, "poi"@]
}

/// The chunk folders of a dimension, in the order they are converted.
pub fn chunk_subdirs() -> (r: Vec<&'static str>)
    ensures
        crate::data_files::names_view(r@) == chunk_subdir_names(),
{
    let r = vec!["region", "entities", "poi"];
    assert(crate::data_files::names_view(r@) =~= chunk_subdir_names());
    r
}

/// Whether an entry of a dimension folder is a chunk folder.
pub fn is_chunk_subdir(name: &str) -> (r: bool)
    ensures
        r == chunk_subdir_names().contains(name@),
{
    let names = chunk_subdirs();
    let r = crate::keymap::is_one_of(&names, name);
    proof {
        if r {
            let i = choose|i: int| 0 <= i < names@.len() && #[trigger] names@[i]@ == name@;
            assert(crate::data_files::names_view(names@)[i] == name@);
        }
    }
    r
}

/// The layout of a world folder: none without a `level.dat`, the 26.x layout when it
/// has `dimensions/minecraft/overworld`, the older one otherwise.
pub open spec fn layout_spec(has_level_dat: bool, has_overworld_dir: bool) -> Option<Layout> {
    if !has_level_dat {
        None
    } else if has_overworld_dir {
        Some(Layout::New26)
    } else {
        Some(Layout::Legacy)
    }
}

/// The layout of the world folder shown as `world` (see [`layout_spec`]); an invalid
/// world error naming the folder when it has no `level.dat`.
pub fn detect_layout(has_level_dat: bool, has_overworld_dir: bool, world: &str) -> (r: Result<Layout, Error>)
    ensures
        match layout_spec(has_level_dat, has_overworld_dir) {
            Some(l) => r == Ok::<Layout, Error>(l),
            None => r matches Err(Error::InvalidWorld(m)) && m@ == "level.dat not found: "@ + world@,
        },
{
    if !has_level_dat {
        return Err(Error::InvalidWorld(concat2("level.dat not found: ", world)));
    }
    if has_overworld_dir {
        Ok(Layout::New26)
    } else {
        Ok(Layout::Legacy)
    }
}

/// Where the dimension `namespace:name` goes: the overworld to the root, the Nether to
/// `DIM-1`, the End to `DIM1`, any other to `dimensions/<namespace>/<name>`.
pub open spec fn dimension_target(ns: Seq<char>, dim: Seq<char>) -> (Seq<Seq<char>>, DimKind) {
    if ns == "minecraft"@ && dim == "overworld"@ {
        (Seq::empty(), DimKind::Overworld)
    } else if ns == "minecraft"@ && dim == "the_nether"@ {
        (seq!["DIM-1"@], DimKind::Nether)
    } else if ns == "minecraft"@ && dim == "the_end"@ {
        (seq!["DIM1"@], DimKind::End)
    } else {
        (seq!["dimensions"@, ns, dim], DimKind::Custom)
    }
}

/// The mapping of the dimension folder `input_dir`, found as
/// `dimensions/<namespace>/<name>` (see [`dimension_target`]).
pub fn dimension_mapping(input_dir: String, namespace: &str, name: &str) -> (r: DimMapping)
    ensures
        r.input_dir == input_dir,
        (crate::mapping::strings_view(r.output_rel@), r.kind) == dimension_target(namespace@, name@),
{
    let (output_rel, kind) = if str_eq(namespace, "minecraft") && str_eq(name, "overworld") {
        (Vec::new(), DimKind::Overworld)
    } else if str_eq(namespace, "minecraft") && str_eq(name, "the_nether") {
        (vec![string_of("DIM-1")], DimKind::Nether)
    } else if str_eq(namespace, "minecraft") && str_eq(name, "the_end") {
        (vec![string_of("DIM1")], DimKind::End)
    } else {
        (vec![string_of("dimensions"), string_of(namespace), string_of(name)], DimKind::Custom)
    };
    assert(crate::mapping::strings_view(output_rel@) =~= dimension_target(namespace@, name@).0);
    DimMapping { input_dir, output_rel, kind }
}

/// Reports a custom dimension, which is copied as it is (`output_rel` as shown).
pub fn note_custom_dimension(report: &mut Report, output_rel: &str)
    ensures
        tally(*final(report)) == tw(
            tally(*old(report)),
            "Custom dimension '"@ + output_rel@ + "' was copied without structural changes."@,
        ),
        same_other_counters(*old(report), *final(report)),
{
    let mut w = string_of("Custom dimension '");
    append(&mut w, output_rel);
    append(&mut w, "' was copied without structural changes.");
    report.warn(w);
}

// ---------------------------------------------------------------- the world root

/// Entries of the world root that are converted elsewhere or left out.
pub open spec fn root_handled_names() -> Seq<Seq<char>> {
    seq!["level.dat"@, "level.dat_old"@, "session.lock"@, "dimensions"@, "players"@, "data"@]
}

/// Whether an entry of the world root is copied as it is (everything but
/// [`root_handled_names`]).
pub fn copies_root_entry(name: &str) -> (r: bool)
    ensures
        r == !root_handled_names().contains(name@),
{
    let names = vec!["level.dat", "level.dat_old", "session.lock", "dimensions", "players", "data"];
    let found = crate::keymap::is_one_of(&names, name);
    proof {
        assert(crate::data_files::names_view(names@) =~= root_handled_names());
        if found {
            let i = choose|i: int| 0 <= i < names@.len() && #[trigger] names@[i]@ == name@;
            assert(root_handled_names()[i] == name@);
        } else {
            assert forall|i: int| 0 <= i < root_handled_names().len() implies root_handled_names()[i] != name@ by {
                assert(names@[i]@ == root_handled_names()[i]);
            }
        }
    }
    !found
}

// ---------------------------------------------------------------- dimension folders

/// What happens to an entry of a dimension folder.
#[derive(Debug, Clone, Copy, PartialEq, Eq)]
pub enum DimEntryAction {
    /// A chunk folder, converted in the chunk step.
    Chunks,
    /// The `data` folder, converted file by file.
    Data,
    /// Another folder, copied.
    CopyDir,
    /// A file, copied.
    CopyFile,
}

/// The action for an entry of a dimension folder.
pub open spec fn dim_entry_spec(name: Seq<char>, is_dir: bool) -> DimEntryAction {
    if chunk_subdir_names().contains(name) {
        DimEntryAction::Chunks
    } else if name == "data"@ && is_dir {
        DimEntryAction::Data
    } else if is_dir {
        DimEntryAction::CopyDir
    } else {
        DimEntryAction::CopyFile
    }
}

/// Decides what happens to an entry of a dimension folder (see [`dim_entry_spec`]).
pub fn dim_entry_action(name: &str, is_dir: bool) -> (r: DimEntryAction)
    ensures
        r == dim_entry_spec(name@, is_dir),
{
    if is_chunk_subdir(name) {
        DimEntryAction::Chunks
    } else if str_eq(name, "data") && is_dir {
        DimEntryAction::Data
    } else if is_dir {
        DimEntryAction::CopyDir
    } else {
        DimEntryAction::CopyFile
    }
}

/// What happens to an entry of a `data` folder (shared or per dimension).
#[derive(Debug, Clone, Copy, PartialEq, Eq)]
pub enum DataEntryAction {
    /// The `minecraft` folder, whose files are converted one by one.
    Vanilla,
    /// Another folder, copied as it is (with a warning).
    ForeignDir,
    /// Another file, copied as it is (with a warning).
    ForeignFile,
}

/// The action for an entry of a `data` folder: only a folder named `minecraft` holds
/// the files that are converted.
pub open spec fn data_entry_spec(name: Seq<char>, is_dir: bool) -> DataEntryAction {
    if name == "minecraft"@ && is_dir {
        DataEntryAction::Vanilla
    } else if is_dir {
        DataEntryAction::ForeignDir
    } else {
        DataEntryAction::ForeignFile
    }
}

/// Decides what happens to an entry of a `data` folder (see [`data_entry_spec`]).
pub fn data_entry_action(name: &str, is_dir: bool) -> (r: DataEntryAction)
    ensures
        r == data_entry_spec(name@, is_dir),
{
    if str_eq(name, "minecraft") && is_dir {
        DataEntryAction::Vanilla
    } else if is_dir {
        DataEntryAction::ForeignDir
    } else {
        DataEntryAction::ForeignFile
    }
}

/// What happens to a file of a dimension's `data/minecraft` folder.
#[derive(Debug, Clone, Copy, PartialEq, Eq)]
pub enum DimDataAction {
    /// Merged into `level.dat` (the End's dragon fight, the overworld's border).
    Merged,
    /// A per-dimension copy of a merged file that older versions cannot hold: dropped,
    /// with a warning.
    Dropped,
    /// Data with no equivalent in older versions (chunk tickets): dropped, with a
    /// warning.
    Unsupported,
    /// The raid file, converted to `raids.dat` (`raids_end.dat` for the End).
    Raids,
    /// Another `.dat` file, copied with its data version rewritten and a warning.
    RewriteDat,
    /// A folder, copied.
    CopyDir,
    /// Another file, copied.
    CopyFile,
}

/// The action for a file of a dimension's `data/minecraft` folder.
pub open spec fn dim_data_spec(name: Seq<char>, kind: DimKind, is_dir: bool, is_dat: bool) -> DimDataAction {
    if dim_merge_names().contains(name) {
        if (name == "ender_dragon_fight.dat"@ && kind == DimKind::End) || (name == "world_border.dat"@
            && kind == DimKind::Overworld) {
            DimDataAction::Merged
        } else {
            DimDataAction::Dropped
        }
    } else if dim_skip_names().contains(name) {
        DimDataAction::Unsupported
    } else if name == "raids.dat"@ {
        DimDataAction::Raids
    } else if is_dat {
        DimDataAction::RewriteDat
    } else if is_dir {
        DimDataAction::CopyDir
    } else {
        DimDataAction::CopyFile
    }
}

/// Decides what happens to a file of a dimension's data folder (see [`dim_data_spec`]).
pub fn dim_data_action(name: &str, kind: DimKind, is_dir: bool, is_dat: bool) -> (r: DimDataAction)
    ensures
        r == dim_data_spec(name@, kind, is_dir, is_dat),
{
    if is_dim_merge_file(name) {
        let end = match kind {
            DimKind::End => true,
            _ => false,
        };
        let overworld = match kind {
            DimKind::Overworld => true,
            _ => false,
        };
        if (str_eq(name, "ender_dragon_fight.dat") && end) || (str_eq(name, "world_border.dat") && overworld) {
            DimDataAction::Merged
        } else {
            DimDataAction::Dropped
        }
    } else if is_dim_skip_file(name) {
        DimDataAction::Unsupported
    } else if str_eq(name, "raids.dat") {
        DimDataAction::Raids
    } else if is_dat {
        DimDataAction::RewriteDat
    } else if is_dir {
        DimDataAction::CopyDir
    } else {
        DimDataAction::CopyFile
    }
}

/// The name under which a dimension's raid file is written.
pub fn raids_file_name(kind: DimKind) -> (r: &'static str)
    ensures
        r@ == (if kind == DimKind::End {
            "raids_end.dat"@
        } else {
            "raids.dat"@
        }),
{
    match kind {
        DimKind::End => "raids_end.dat",
        _ => "raids.dat",
    }
}

/// Reports a per-dimension merged file that is dropped.
pub fn note_dropped_dim_file(report: &mut Report, name: &str)
    ensures
        tally(*final(report)) == tw(
            tally(*old(report)),
            "Older versions do not support per-dimension "@ + name@
                + "; the file from this dimension was dropped."@,
        ),
        same_other_counters(*old(report), *final(report)),
{
    let mut w = string_of("Older versions do not support per-dimension ");
    append(&mut w, name);
    append(&mut w, "; the file from this dimension was dropped.");
    report.warn(w);
}

/// The warning for a data file with no equivalent in older versions.
pub open spec fn unsupported_file_warning(name: Seq<char>) -> Seq<char> {
    "Older versions have no equivalent of "@ + name + "; the file was dropped."@
}

/// Reports a data file with no equivalent in older versions, which is dropped
/// (stopwatches, chunk tickets).
pub fn note_unsupported_file(report: &mut Report, name: &str)
    ensures
        tally(*final(report)) == tw(tally(*old(report)), unsupported_file_warning(name@)),
        same_other_counters(*old(report), *final(report)),
{
    let mut w = string_of("Older versions have no equivalent of ");
    append(&mut w, name);
    append(&mut w, "; the file was dropped.");
    report.warn(w);
}

/// Reports an unknown dimension data file, copied with its data version rewritten.
pub fn note_unknown_dim_file(report: &mut Report, name: &str)
    ensures
        tally(*final(report)) == tw(
            tally(*old(report)),
            "Unknown dimension data file "@ + name@
                + " was copied with only its DataVersion rewritten."@,
        ),
        same_other_counters(*old(report), *final(report)),
{
    let mut w = string_of("Unknown dimension data file ");
    append(&mut w, name);
    append(&mut w, " was copied with only its DataVersion rewritten.");
    report.warn(w);
}

/// Reports an entry of a dimension's `data` folder outside `minecraft`, copied as it is.
pub fn note_foreign_dim_data(report: &mut Report, namespace: &str)
    ensures
        tally(*final(report)) == tw(
            tally(*old(report)),
            "Non-vanilla dimension data entry '"@ + namespace@ + "' was copied preserving its path."@,
        ),
        same_other_counters(*old(report), *final(report)),
{
    let mut w = string_of("Non-vanilla dimension data entry '");
    append(&mut w, namespace);
    append(&mut w, "' was copied preserving its path.");
    report.warn(w);
}

// ---------------------------------------------------------------- shared data

/// What happens to a file of the shared `data/minecraft` folder.
#[derive(Debug, Clone, Copy, PartialEq, Eq)]
pub enum SharedDataAction {
    /// Merged into `level.dat`.
    Merged,
    /// Data with no equivalent in older versions (stopwatches): dropped, with a warning.
    Unsupported,
    /// The `maps` folder, whose files are renamed to the older scheme.
    Maps,
    /// A folder, copied.
    CopyDir,
    /// A `.dat` file, copied with its data version rewritten.
    RewriteDat,
    /// Another file, copied.
    CopyFile,
}

/// The action for a file of the shared `data/minecraft` folder.
pub open spec fn shared_data_spec(name: Seq<char>, is_dir: bool, is_dat: bool) -> SharedDataAction {
    if shared_merge_names().contains(name) {
        SharedDataAction::Merged
    } else if shared_skip_names().contains(name) {
        SharedDataAction::Unsupported
    } else if name == "maps"@ && is_dir {
        SharedDataAction::Maps
    } else if is_dir {
        SharedDataAction::CopyDir
    } else if is_dat {
        SharedDataAction::RewriteDat
    } else {
        SharedDataAction::CopyFile
    }
}

/// Decides what happens to a shared data file (see [`shared_data_spec`]).
pub fn shared_data_action(name: &str, is_dir: bool, is_dat: bool) -> (r: SharedDataAction)
    ensures
        r == shared_data_spec(name@, is_dir, is_dat),
{
    if is_shared_merge_file(name) {
        SharedDataAction::Merged
    } else if is_shared_skip_file(name) {
        SharedDataAction::Unsupported
    } else if str_eq(name, "maps") && is_dir {
        SharedDataAction::Maps
    } else if is_dir {
        SharedDataAction::CopyDir
    } else if is_dat {
        SharedDataAction::RewriteDat
    } else {
        SharedDataAction::CopyFile
    }
}

/// Reports an entry of the shared `data` folder outside `minecraft`, copied as it is.
pub fn note_foreign_shared_data(report: &mut Report, name: &str)
    ensures
        tally(*final(report)) == tw(
            tally(*old(report)),
            "data/"@ + name@ + " entry was copied preserving its path."@,
        ),
        same_other_counters(*old(report), *final(report)),
{
    let mut w = string_of("data/");
    append(&mut w, name);
    append(&mut w, " entry was copied preserving its path.");
    report.warn(w);
}

/// Whether a file stem is a map number: nonempty and ASCII digits only.
pub open spec fn is_map_number(stem: Seq<char>) -> bool {
    stem.len() > 0 && forall|i: int| 0 <= i < stem.len() ==> '0' <= #[trigger] stem[i] <= '9'
}

/// Where a file of the `maps` folder goes: `last_id.dat` becomes `idcounts.dat`, a
/// map `<n>.dat` becomes `map_<n>.dat`; anything else is copied under its own name
/// (none here).
pub open spec fn map_file_spec(name: Seq<char>, stem: Seq<char>, is_dat: bool) -> Option<Seq<char>> {
    if name == "last_id.dat"@ {
        Some("idcounts.dat"@)
    } else if is_map_number(stem) && is_dat {
        Some("map_"@ + stem + ".dat"@)
    } else {
        None
    }
}

/// The output name of a map file (see [`map_file_spec`]).
pub fn map_file_target(name: &str, stem: &str, is_dat: bool) -> (r: Option<String>)
    ensures
        match r {
            Some(s) => map_file_spec(name@, stem@, is_dat) == Some(s@),
            None => map_file_spec(name@, stem@, is_dat) is None,
        },
{
    if str_eq(name, "last_id.dat") {
        return Some(string_of("idcounts.dat"));
    }
    let n = stem.unicode_len();
    let mut digits = n > 0;
    let mut i: usize = 0;
    while i < n
        invariant
            n == stem@.len(),
            i <= n,
            digits == (n > 0 && forall|j: int| 0 <= j < i ==> '0' <= #[trigger] stem@[j] <= '9'),
        decreases n - i,
    {
        let c = stem.get_char(i);
        if !('0' <= c && c <= '9') {
            digits = false;
        }
        i = i + 1;
    }
    if digits && is_dat {
        let mut s = string_of("map_");
        append(&mut s, stem);
        append(&mut s, ".dat");
        Some(s)
    } else {
        None
    }
}

/// Reports an unexpected file of the `maps` folder, copied as it is.
pub fn note_unexpected_map_file(report: &mut Report, name: &str)
    ensures
        tally(*final(report)) == tw(
            tally(*old(report)),
            "Unexpected file in maps folder was copied as-is: "@ + name@,
        ),
        same_other_counters(*old(report), *final(report)),
{
    report.warn(concat2("Unexpected file in maps folder was copied as-is: ", name));
}

// ---------------------------------------------------------------- players

/// The folders of `players/` and their older names.
pub open spec fn players_table() -> Seq<(Seq<char>, Seq<char>)> {
    seq![("data"@, "playerdata"@), ("advancements"@, "advancements"@), ("stats"@, "stats"@)]
}

/// Where a folder of `players/` goes: `data` to `playerdata`, `advancements` and
/// `stats` under their own names; other entries (and files) to the output root as they
/// are (none here).
pub fn players_subdir(name: &str, is_dir: bool) -> (r: Option<&'static str>)
    ensures
        match r {
            Some(l) => is_dir && key_lookup(players_table(), name@) == Some(l@),
            None => !is_dir || key_lookup(players_table(), name@) is None,
        },
{
    let table = vec![("data", "playerdata"), ("advancements", "advancements"), ("stats", "stats")];
    assert(table_view(table@) =~= players_table());
    match lookup(&table, name) {
        Some(l) => if is_dir {
            Some(l)
        } else {
            None
        },
        None => None,
    }
}

/// Reports an unexpected entry of `players/`, copied to the output root.
pub fn note_unexpected_player_entry(report: &mut Report, name: &str)
    ensures
        tally(*final(report)) == tw(
            tally(*old(report)),
            "Unexpected entry '"@ + name@ + "' in players/ was copied to the output root as-is."@,
        ),
        same_other_counters(*old(report), *final(report)),
{
    let mut w = string_of("Unexpected entry '");
    append(&mut w, name);
    append(&mut w, "' in players/ was copied to the output root as-is.");
    report.warn(w);
}

/// Whether a file of a players folder is a player data file (`.dat` or `.dat_old`).
pub fn is_player_data_extension(ext: &str) -> (r: bool)
    ensures
        r == (ext@ == "dat"@ || ext@ == "dat_old"@),
{
    str_eq(ext, "dat") || str_eq(ext, "dat_old")
}

} // verus!
