//! The `.dat` files around a world: which of them are merged into `level.dat` or
//! skipped, the `{DataVersion, data}` wrapper they come in, the snake_case to
//! camelCase/PascalCase renaming of their keys, and the files that are carried over
//! with only their data version (or, for players, their contents) downgraded.
use vstd::prelude::*;
use crate::downgrade::{downgrade_spec, try_downgrade_compound};
use crate::error::Error;
use crate::keymap::{key_lookup, lookup, table_view, is_one_of};
use crate::nbt::{cget, cins, crem, cv, empty_entries, entry_take, has_key, insert, contains_key, lemma_cv, remove, Entries, Nbt, NbtV, nv};
use crate::report::{fits, same_other_counters, tally, tw, Report, Tally};
use crate::text::{append, ascii_upper, char_upper, push_char, string_of, to_uppercase_string};

verus! {

// ---------------------------------------------------------------- file lists

/// The names in a list of names.
pub open spec fn names_view(v: Seq<&'static str>) -> Seq<Seq<char>> {
    Seq::new(v.len(), |i: int| v[i]@)
}

/// Shared `data/minecraft` files whose contents move into `level.dat`.
pub open spec fn shared_merge_names() -> Seq<Seq<char>> {
    seq![
        "game_rules.dat"@,
        "weather.dat"@,
        "world_gen_settings.dat"@,
        "custom_boss_events.dat"@,
        "scheduled_events.dat"@,
        "world_clocks.dat"@,
        "wandering_trader.dat"@,
    ]
}

/// Shared files with no equivalent in older versions: dropped with a warning.
pub open spec fn shared_skip_names() -> Seq<Seq<char>> {
    seq!["stopwatches.dat"@]
}

/// Per-dimension files whose contents move into `level.dat`.
pub open spec fn dim_merge_names() -> Seq<Seq<char>> {
    seq!["ender_dragon_fight.dat"@, "world_border.dat"@]
}

/// Per-dimension files with no equivalent in older versions: dropped with a warning.
pub open spec fn dim_skip_names() -> Seq<Seq<char>> {
    seq!["chunk_tickets.dat"@]
}

fn shared_merge_files() -> (r: Vec<&'static str>)
    ensures
        names_view(r@) == shared_merge_names(),
{
    let r = vec![
        "game_rules.dat",
        "weather.dat",
        "world_gen_settings.dat",
        "custom_boss_events.dat",
        "scheduled_events.dat",
        "world_clocks.dat",
        "wandering_trader.dat",
    ];
    assert(names_view(r@) =~= shared_merge_names());
    r
}

/// Whether a shared `data/minecraft` file is merged into `level.dat`.
pub fn is_shared_merge_file(name: &str) -> (r: bool)
    ensures
        r == shared_merge_names().contains(name@),
{
    let names = shared_merge_files();
    let r = is_one_of(&names, name);
    proof {
        if r {
            let i = choose|i: int| 0 <= i < names@.len() && #[trigger] names@[i]@ == name@;
            assert(names_view(names@)[i] == name@);
        }
    }
    r
}

/// Whether a shared `data/minecraft` file has no equivalent in older versions.
pub fn is_shared_skip_file(name: &str) -> (r: bool)
    ensures
        r == shared_skip_names().contains(name@),
{
    let names = vec!["stopwatches.dat"];
    let r = is_one_of(&names, name);
    proof {
        assert(names_view(names@) =~= shared_skip_names());
        if r {
            let i = choose|i: int| 0 <= i < names@.len() && #[trigger] names@[i]@ == name@;
            assert(names_view(names@)[i] == name@);
        }
    }
    r
}

/// Whether a per-dimension data file is merged into `level.dat`.
pub fn is_dim_merge_file(name: &str) -> (r: bool)
    ensures
        r == dim_merge_names().contains(name@),
{
    let names = vec!["ender_dragon_fight.dat", "world_border.dat"];
    let r = is_one_of(&names, name);
    proof {
        assert(names_view(names@) =~= dim_merge_names());
        if r {
            let i = choose|i: int| 0 <= i < names@.len() && #[trigger] names@[i]@ == name@;
            assert(names_view(names@)[i] == name@);
        }
    }
    r
}

/// Whether a per-dimension data file has no equivalent in older versions.
pub fn is_dim_skip_file(name: &str) -> (r: bool)
    ensures
        r == dim_skip_names().contains(name@),
{
    let names = vec!["chunk_tickets.dat"];
    let r = is_one_of(&names, name);
    proof {
        assert(names_view(names@) =~= dim_skip_names());
        if r {
            let i = choose|i: int| 0 <= i < names@.len() && #[trigger] names@[i]@ == name@;
            assert(names_view(names@)[i] == name@);
        }
    }
    r
}

// ---------------------------------------------------------------- the wrapper

/// A data file without its `DataVersion`; a file that then holds only a `data`
/// compound is replaced by that compound.
pub open spec fn split_wrapper_spec(c: Entries) -> Entries {
    let m = crem(c, "DataVersion"@);
    match cget(m, "data"@) {
        Some(NbtV::Compound(inner)) => if m.len() == 1 {
            inner
        } else {
            m
        },
        _ => m,
    }
}

/// Unwraps a data file (see [`split_wrapper_spec`]).
pub fn split_wrapper(map: Vec<(String, Nbt)>) -> (r: Vec<(String, Nbt)>)
    ensures
        cv(r@) == split_wrapper_spec(cv(map@)),
{
    let mut map = map;
    remove(&mut map, "DataVersion");
    proof {
        lemma_cv(map@);
    }
    let wrapped = map.len() == 1 && match crate::nbt::get(&map, "data") {
        Some(Nbt::Compound(_)) => true,
        _ => false,
    };
    if wrapped {
        let ghost before = cv(map@);
        match remove(&mut map, "data") {
            Some(Nbt::Compound(inner)) => inner,
            _ => {
                assert(cget(before, "data"@) matches Some(NbtV::Compound(_)));
                map
            },
        }
    } else {
        map
    }
}

/// What a parsed data file yields: nothing for a missing file, its unwrapped
/// compound, or an error when its root is no compound.
pub open spec fn read_wrapped_spec(parsed: Option<NbtV>) -> Result<Option<Entries>, ()> {
    match parsed {
        None => Ok(None),
        Some(NbtV::Compound(m)) => Ok(Some(split_wrapper_spec(m))),
        Some(_) => Err(()),
    }
}

/// The contents of a data file, given the file's parsed root (`None` when the file
/// does not exist): the unwrapped compound, or an NBT error for `path` when the root
/// is no compound.
pub fn read_wrapped_dat(parsed: Option<Nbt>, path: &str) -> (r: Result<Option<Vec<(String, Nbt)>>, Error>)
    ensures
        match r {
            Ok(Some(m)) => read_wrapped_spec(
                match parsed {
                    Some(v) => Some(nv(v)),
                    None => None,
                },
            ) == Ok::<Option<Entries>, ()>(Some(cv(m@))),
            Ok(None) => parsed is None,
            Err(e) => {
                &&& parsed matches Some(v) && !(v is Compound)
                &&& e matches Error::Nbt { context: c, message: m } && c@ == path@ && m@
                    == "root tag is not a compound"@
            },
        },
        parsed matches Some(v) && v is Compound ==> r is Ok,
{
    match parsed {
        None => Ok(None),
        Some(Nbt::Compound(map)) => Ok(Some(split_wrapper(map))),
        Some(_) => Err(Error::nbt(path, "root tag is not a compound")),
    }
}

// ---------------------------------------------------------------- case conversion

/// snake_case to camelCase from a point where the next letter is (or is not) to be
/// raised: each `_` is dropped and the character after it uppercased.
pub open spec fn camel_from(s: Seq<char>, upper: bool) -> Seq<char>
    decreases s.len(),
{
    if s.len() == 0 {
        Seq::empty()
    } else if s[0] == '_' {
        camel_from(s.subrange(1, s.len() as int), true)
    } else if upper {
        char_upper(s[0]) + camel_from(s.subrange(1, s.len() as int), false)
    } else {
        seq![s[0]] + camel_from(s.subrange(1, s.len() as int), false)
    }
}

/// snake_case to PascalCase: camelCase with its first character uppercased.
pub open spec fn pascal_spec(s: Seq<char>) -> Seq<char> {
    let c = camel_from(s, false);
    if c.len() == 0 {
        c
    } else {
        char_upper(c[0]) + c.subrange(1, c.len() as int)
    }
}

/// Every character is ASCII.
pub open spec fn is_ascii_text(s: Seq<char>) -> bool {
    forall|i: int| 0 <= i < s.len() ==> (#[trigger] s[i] as u32) < 128
}

/// `keep_inventory` becomes `keepInventory`: no underscore is left, a name without
/// underscores stays as it is, and an ASCII name gives an ASCII name.
pub fn snake_to_camel(s: &str) -> (r: String)
    ensures
        r@ == camel_from(s@, false),
        !r@.contains('_'),
        !s@.contains('_') ==> r@ == s@,
        is_ascii_text(s@) ==> is_ascii_text(r@),
{
    let n = s.unicode_len();
    let mut out = String::new();
    let mut upper = false;
    let mut i: usize = 0;
    proof {
        assert(s@.subrange(0, n as int) =~= s@);
        assert(out@ + camel_from(s@, false) =~= camel_from(s@, false));
        assert(out@ =~= Seq::<char>::empty());
    }
    while i < n
        invariant
            n == s@.len(),
            i <= n,
            out@ + camel_from(s@.subrange(i as int, n as int), upper) == camel_from(s@, false),
            !out@.contains('_'),
            is_ascii_text(s@) ==> is_ascii_text(out@),
        decreases n - i,
    {
        let ch = s.get_char(i);
        let ghost rest = s@.subrange(i as int, n as int);
        let ghost tail = s@.subrange(i + 1, n as int);
        let ghost before = out@;
        assert(rest.subrange(1, rest.len() as int) =~= tail);
        assert(rest[0] == ch);
        if ch == '_' {
            upper = true;
        } else if upper {
            let u = to_uppercase_string(ch);
            append(&mut out, u.as_str());
            upper = false;
            assert(before + (char_upper(ch) + camel_from(tail, false)) =~= out@ + camel_from(tail, false));
            proof {
                lemma_concat_plain(before, u@);
                if is_ascii_text(s@) {
                    assert((s@[i as int] as u32) < 128);
                    assert(out@ =~= before.push(ascii_upper(ch)));
                    lemma_push_ascii(before, ascii_upper(ch));
                }
            }
        } else {
            push_char(&mut out, ch);
            assert(before + (seq![ch] + camel_from(tail, false)) =~= out@ + camel_from(tail, false));
            proof {
                assert(out@ =~= before + seq![ch]);
                lemma_concat_plain(before, seq![ch]);
                if is_ascii_text(s@) {
                    assert((s@[i as int] as u32) < 128);
                    lemma_push_ascii(before, ch);
                }
            }
        }
        i = i + 1;
    }
    assert(out@ + camel_from(s@.subrange(n as int, n as int), upper) =~= out@);
    proof {
        if !s@.contains('_') {
            lemma_camel_plain(s@);
        }
    }
    out
}

/// Two texts without an underscore give none when joined.
proof fn lemma_concat_plain(a: Seq<char>, b: Seq<char>)
    requires
        !a.contains('_'),
        !b.contains('_'),
    ensures
        !(a + b).contains('_'),
{
    if (a + b).contains('_') {
        let k = choose|k: int| 0 <= k < (a + b).len() && (a + b)[k] == '_';
        if k < a.len() {
            assert(a[k] == '_');
            assert(a.contains('_'));
        } else {
            assert(b[k - a.len()] == '_');
            assert(b.contains('_'));
        }
    }
}

/// An ASCII text stays ASCII when an ASCII character is added.
proof fn lemma_push_ascii(a: Seq<char>, c: char)
    requires
        is_ascii_text(a),
        (c as u32) < 128,
    ensures
        is_ascii_text(a.push(c)),
{
    assert forall|i: int| 0 <= i < a.push(c).len() implies (#[trigger] a.push(c)[i] as u32) < 128 by {
        if i < a.len() {
            assert(a.push(c)[i] == a[i]);
        }
    }
}

/// `dragon_killed` becomes `DragonKilled`: no underscore is left, and an ASCII name
/// gives an ASCII name.
pub fn snake_to_pascal(s: &str) -> (r: String)
    ensures
        r@ == pascal_spec(s@),
        !r@.contains('_'),
        is_ascii_text(s@) ==> is_ascii_text(r@),
{
    let camel = snake_to_camel(s);
    let n = camel.as_str().unicode_len();
    if n == 0 {
        return camel;
    }
    let first = camel.as_str().get_char(0);
    let rest = camel.as_str().substring_char(1, n);
    let mut out = to_uppercase_string(first);
    let ghost up = out@;
    append(&mut out, rest);
    proof {
        let c = camel@;
        assert(c[0] != '_') by {
            assert(c.contains(c[0]));
        }
        assert(!rest@.contains('_')) by {
            if rest@.contains('_') {
                let k = choose|k: int| 0 <= k < rest@.len() && rest@[k] == '_';
                assert(c[k + 1] == '_');
                assert(c.contains('_'));
            }
        }
        lemma_concat_plain(up, rest@);
        if is_ascii_text(s@) {
            assert((c[0] as u32) < 128);
            assert(is_ascii_text(rest@)) by {
                assert forall|i: int| 0 <= i < rest@.len() implies (#[trigger] rest@[i] as u32) < 128 by {
                    assert(rest@[i] == c[i + 1]);
                }
            }
            assert(seq![ascii_upper(c[0])] + rest@ =~= out@);
            assert(is_ascii_text(out@)) by {
                assert forall|i: int| 0 <= i < out@.len() implies (#[trigger] out@[i] as u32) < 128 by {
                    if i > 0 {
                        assert(out@[i] == rest@[i - 1]);
                    }
                }
            }
        }
    }
    out
}

/// A name without underscores is its own camelCase form.
pub proof fn lemma_camel_plain(s: Seq<char>)
    requires
        !s.contains('_'),
    ensures
        camel_from(s, false) == s,
    decreases s.len(),
{
    if s.len() > 0 {
        let rest = s.subrange(1, s.len() as int);
        assert(!rest.contains('_')) by {
            if rest.contains('_') {
                let k = choose|k: int| 0 <= k < rest.len() && rest[k] == '_';
                assert(s[k + 1] == '_');
            }
        }
        assert(s[0] != '_') by {
            assert(s.contains(s[0]) ==> s[0] != '_');
        }
        lemma_camel_plain(rest);
        assert(seq![s[0]] + rest =~= s);
    }
}

// ---------------------------------------------------------------- files carried over

/// A compound with its `DataVersion` (where it has one) set to the target.
pub open spec fn rewrite_dv_spec(c: Entries, dv: i32) -> Entries {
    if has_key(c, "DataVersion"@) {
        cins(c, "DataVersion"@, NbtV::Int(dv))
    } else {
        c
    }
}

/// The warning for a data file that could not be parsed.
pub open spec fn unparsable_warning(src: Seq<char>) -> Seq<char> {
    "Could not parse "@ + src + " as NBT; copied as-is."@
}

fn rewrite_dv(map: &mut Vec<(String, Nbt)>, dv: i32)
    ensures
        cv(final(map)@) == rewrite_dv_spec(cv(old(map)@), dv),
{
    if contains_key(map, "DataVersion") {
        insert(map, "DataVersion", Nbt::Int(dv));
    }
}

fn unparsable(src: &str, report: &mut Report)
    ensures
        tally(*final(report)) == tw(tally(*old(report)), unparsable_warning(src@)),
        same_other_counters(*old(report), *final(report)),
{
    let mut w = string_of("Could not parse ");
    append(&mut w, src);
    append(&mut w, " as NBT; copied as-is.");
    report.warn(w);
}

/// A data file carried over with only its data version rewritten. `parsed` is its
/// root when that parsed as a compound; the result is the compound to write, or
/// `None` when the file is to be copied byte for byte (with a warning naming `src`).
pub fn copy_dat_rewrite_dataversion(
    parsed: Option<Vec<(String, Nbt)>>,
    target_data_version: i32,
    src: &str,
    report: &mut Report,
) -> (r: Option<Vec<(String, Nbt)>>)
    ensures
        match parsed {
            Some(m) => r matches Some(w) && cv(w@) == rewrite_dv_spec(cv(m@), target_data_version)
                && *final(report) == *old(report),
            None => r is None && tally(*final(report)) == tw(tally(*old(report)), unparsable_warning(src@)),
        },
        same_other_counters(*old(report), *final(report)),
{
    match parsed {
        Some(mut map) => {
            rewrite_dv(&mut map, target_data_version);
            Some(map)
        },
        None => {
            unparsable(src, report);
            None
        },
    }
}

/// A player file carried over: its data version rewritten and its contents
/// downgraded (see [`copy_dat_rewrite_dataversion`] for `parsed`, `src` and the result).
pub fn copy_player_dat(
    parsed: Option<Vec<(String, Nbt)>>,
    target_data_version: i32,
    src: &str,
    report: &mut Report,
) -> (r: Option<Vec<(String, Nbt)>>)
    requires
        parsed matches Some(m) ==> downgrade_spec(
            rewrite_dv_spec(cv(m@), target_data_version),
            target_data_version,
            tally(*old(report)),
        ) matches Some((_, t)) && fits(t),
    ensures
        match parsed {
            Some(m) => r matches Some(w) && downgrade_spec(
                rewrite_dv_spec(cv(m@), target_data_version),
                target_data_version,
                tally(*old(report)),
            ) == Some((cv(w@), tally(*final(report)))),
            None => r is None && tally(*final(report)) == tw(tally(*old(report)), unparsable_warning(src@)),
        },
        same_other_counters(*old(report), *final(report)),
{
    match try_copy_player_dat(parsed, target_data_version, src, report) {
        Some(r) => r,
        None => None,
    }
}

/// Carries a player file over as [`copy_player_dat`] does where its contents can be
/// downgraded (`Some` of what it gives), and gives `None`, with the report left
/// part-way, exactly where they cannot (see [`crate::downgrade::try_downgrade_compound`]).
pub fn try_copy_player_dat(
    parsed: Option<Vec<(String, Nbt)>>,
    target_data_version: i32,
    src: &str,
    report: &mut Report,
) -> (r: Option<Option<Vec<(String, Nbt)>>>)
    ensures
        r is Some == (parsed matches Some(m) ==> downgrade_spec(
            rewrite_dv_spec(cv(m@), target_data_version),
            target_data_version,
            tally(*old(report)),
        ) matches Some((_, t)) && fits(t)),
        r matches Some(o) ==> match parsed {
            Some(m) => o matches Some(w) && downgrade_spec(
                rewrite_dv_spec(cv(m@), target_data_version),
                target_data_version,
                tally(*old(report)),
            ) == Some((cv(w@), tally(*final(report)))),
            None => o is None && tally(*final(report)) == tw(tally(*old(report)), unparsable_warning(src@)),
        },
        same_other_counters(*old(report), *final(report)),
{
    match parsed {
        Some(mut map) => {
            rewrite_dv(&mut map, target_data_version);
            if try_downgrade_compound(&mut map, target_data_version, report) {
                Some(Some(map))
            } else {
                None
            }
        },
        None => {
            unparsable(src, report);
            Some(None)
        },
    }
}

// ---------------------------------------------------------------- raids

/// The raid file's renamed keys.
pub open spec fn raids_table() -> Seq<(Seq<char>, Seq<char>)> {
    seq![("next_id"@, "NextAvailableID"@), ("tick"@, "Tick"@), ("raids"@, "Raids"@)]
}

fn raids_key_map() -> (r: Vec<(&'static str, &'static str)>)
    ensures
        table_view(r@) == raids_table(),
{
    let r = vec![("next_id", "NextAvailableID"), ("tick", "Tick"), ("raids", "Raids")];
    assert(table_view(r@) =~= raids_table());
    r
}

/// The warning for a key without a known legacy name, renamed to PascalCase.
pub open spec fn rename_warning(key: Seq<char>, file: Seq<char>, legacy: Seq<char>) -> Seq<char> {
    "Unknown key '"@ + key + "' in "@ + file + " converted to '"@ + legacy + "'."@
}

/// The entries of a data file with their keys renamed: keys in the table get their
/// legacy names, others their PascalCase form, with a warning naming `file`.
pub open spec fn pascal_rename_fold(
    es: Entries,
    table: Seq<(Seq<char>, Seq<char>)>,
    file: Seq<char>,
    t: Tally,
) -> (Entries, Tally)
    decreases es.len(),
{
    if es.len() == 0 {
        (Seq::empty(), t)
    } else {
        let (acc, t1) = pascal_rename_fold(es.drop_last(), table, file, t);
        let (k, v) = es.last();
        match key_lookup(table, k) {
            Some(l) => (cins(acc, l, v), t1),
            None => (cins(acc, pascal_spec(k), v), tw(t1, rename_warning(k, file, pascal_spec(k)))),
        }
    }
}

/// Renames the keys of a data file (see [`pascal_rename_fold`]).
pub fn pascal_rename(
    entries: Vec<(String, Nbt)>,
    table: &Vec<(&'static str, &'static str)>,
    file: &str,
    report: &mut Report,
) -> (r: Vec<(String, Nbt)>)
    ensures
        (cv(r@), tally(*final(report))) == pascal_rename_fold(
            cv(entries@),
            table_view(table@),
            file@,
            tally(*old(report)),
        ),
        same_other_counters(*old(report), *final(report)),
{
    let ghost orig = cv(entries@);
    let ghost t0 = tally(*report);
    let ghost r0 = *report;
    let mut entries = entries;
    let n = entries.len();
    let mut conv = empty_entries();
    let mut i: usize = 0;
    proof {
        lemma_cv(entries@);
        assert(orig.take(0) =~= Seq::<(Seq<char>, NbtV)>::empty());
    }
    while i < n
        invariant
            n == entries@.len() == orig.len(),
            i <= n,
            forall|j: int| i <= j < n ==> (#[trigger] entries@[j]).0@ == orig[j].0 && nv(entries@[j].1) == orig[j].1,
            (cv(conv@), tally(*report)) == pascal_rename_fold(orig.take(i as int), table_view(table@), file@, t0),
            same_other_counters(r0, *report),
        decreases n - i,
    {
        let (k, v) = entry_take(&mut entries, i);
        proof {
            assert(orig.take(i + 1).drop_last() =~= orig.take(i as int));
            assert(orig.take(i + 1).last() == orig[i as int]);
        }
        match lookup(table, k.as_str()) {
            Some(l) => {
                insert(&mut conv, l, v);
            },
            None => {
                let legacy = snake_to_pascal(k.as_str());
                let mut w = string_of("Unknown key '");
                append(&mut w, k.as_str());
                append(&mut w, "' in ");
                append(&mut w, file);
                append(&mut w, " converted to '");
                append(&mut w, legacy.as_str());
                append(&mut w, "'.");
                report.warn(w);
                insert(&mut conv, legacy.as_str(), v);
            },
        }
        i = i + 1;
    }
    assert(orig.take(n as int) =~= orig);
    conv
}

/// The file written for a dimension's raid data: `{DataVersion, data}` with the data's
/// keys renamed (see [`pascal_rename_fold`]).
pub open spec fn raids_spec(inner: Entries, dv: i32, t: Tally) -> (Entries, Tally) {
    let (conv, t1) = pascal_rename_fold(inner, raids_table(), "raids.dat"@, t);
    (seq![("DataVersion"@, NbtV::Int(dv)), ("data"@, NbtV::Compound(conv))], t1)
}

/// Builds the converted raid file from its unwrapped contents (see [`raids_spec`]).
pub fn convert_raids_file(inner: Vec<(String, Nbt)>, target_data_version: i32, report: &mut Report) -> (r: Vec<(String, Nbt)>)
    ensures
        (cv(r@), tally(*final(report))) == raids_spec(cv(inner@), target_data_version, tally(*old(report))),
        same_other_counters(*old(report), *final(report)),
{
    let table = raids_key_map();
    let conv = pascal_rename(inner, &table, "raids.dat", report);
    let root = vec![
        (string_of("DataVersion"), Nbt::Int(target_data_version)),
        (string_of("data"), Nbt::Compound(conv)),
    ];
    proof {
        lemma_cv(root@);
        assert(cv(root@) =~= seq![("DataVersion"@, NbtV::Int(target_data_version)), ("data"@, NbtV::Compound(cv(conv@)))]);
    }
    root
}

/// A `{DataVersion, data}` wrapper unwraps to its data.
pub proof fn lemma_split_wrapper(dv: i32, data: Entries)
    ensures
        split_wrapper_spec(seq![("DataVersion"@, NbtV::Int(dv)), ("data"@, NbtV::Compound(data))]) == data,
{
    reveal_strlit("DataVersion");
    reveal_strlit("data");
    let c = seq![("DataVersion"@, NbtV::Int(dv)), ("data"@, NbtV::Compound(data))];
    assert("DataVersion"@.len() == 11);
    assert("data"@.len() == 4);
    assert(c[0].0 != "data"@);
    crate::nbt::lemma_first_unique(c, "DataVersion"@, 0);
    let m = crem(c, "DataVersion"@);
    assert(m =~= seq![("data"@, NbtV::Compound(data))]);
    crate::nbt::lemma_first_unique(m, "data"@, 0);
}

/// The raid file written for a dimension unwraps to the renamed raid data.
pub proof fn lemma_raids_unwrap(inner: Entries, dv: i32, t: Tally)
    ensures
        split_wrapper_spec(raids_spec(inner, dv, t).0) == pascal_rename_fold(inner, raids_table(), "raids.dat"@, t).0,
{
    lemma_split_wrapper(dv, pascal_rename_fold(inner, raids_table(), "raids.dat"@, t).0);
}

} // verus!
