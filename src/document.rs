use vstd::prelude::*;

use crate::codec::{compose, encode_id, is_safe_token, slug_of};
use crate::manifest::{all_safe, choose_entry, file_token, picked_tokens, picks_valid, strings_view, ModEntry};
use crate::scrape::ModFiles;
use crate::ModError;

verus! {

#[verifier::external_type_specification]
#[verifier::external_body]
pub struct ExDocument(toml_edit::Document);

#[verifier::external_type_specification]
#[verifier::external_body]
pub struct ExTable(toml_edit::Table);

/// The keys of the document's `mods` table that hold an item, in document order, or none
/// when `mods` is not a table.
pub uninterp spec fn mod_keys(doc: toml_edit::Document) -> Option<Seq<Seq<char>>>;

/// What a table holds: its keys in order, its string values and its arrays of strings.
pub type TableModel = (Seq<Seq<char>>, Map<Seq<char>, Seq<char>>, Map<Seq<char>, Seq<Seq<char>>>);

/// The entries of the document's `mods` table whose value is a table (standard or inline),
/// each read as a `TableModel`.
pub uninterp spec fn mod_tables(doc: toml_edit::Document) -> Map<Seq<char>, TableModel>;

/// The keys of a table in order.
pub uninterp spec fn table_keys(t: toml_edit::Table) -> Seq<Seq<char>>;

/// The string values of a table, by key.
pub uninterp spec fn table_strings(t: toml_edit::Table) -> Map<Seq<char>, Seq<char>>;

/// The arrays of strings of a table, by key.
pub uninterp spec fn table_arrays(t: toml_edit::Table) -> Map<Seq<char>, Seq<Seq<char>>>;

/// Relies on `toml_edit::Table::new`: an empty table.
#[verifier::external_body]
fn new_table() -> (r: toml_edit::Table)
    ensures
        table_keys(r).len() == 0,
        table_strings(r).dom() == Set::<Seq<char>>::empty(),
        table_arrays(r).dom() == Set::<Seq<char>>::empty(),
{
    toml_edit::Table::new()
}

/// Relies on `toml_edit::Table::insert` and `toml_edit::value`: a new key goes last, with a
/// string value.
#[verifier::external_body]
fn set_string(t: &mut toml_edit::Table, key: &str, value: &str)
    requires
        !table_keys(*old(t)).contains(key@),
    ensures
        table_keys(*final(t)) == table_keys(*old(t)).push(key@),
        table_strings(*final(t)) == table_strings(*old(t)).insert(key@, value@),
        table_arrays(*final(t)) == table_arrays(*old(t)),
{
    t.insert(key, toml_edit::value(value));
}

/// Relies on `toml_edit::Table::insert`, `toml_edit::value` and `Array`'s `FromIterator`: a
/// new key goes last, with an array of the strings in order.
#[verifier::external_body]
fn set_array(t: &mut toml_edit::Table, key: &str, values: &Vec<String>)
    requires
        !table_keys(*old(t)).contains(key@),
    ensures
        table_keys(*final(t)) == table_keys(*old(t)).push(key@),
        table_strings(*final(t)) == table_strings(*old(t)),
        table_arrays(*final(t)) == table_arrays(*old(t)).insert(key@, strings_view(values@)),
{
    let array = values.iter().map(|v| v.as_str()).collect::<toml_edit::Array>();
    t.insert(key, toml_edit::value(array));
}

pub open spec fn table_model(t: toml_edit::Table) -> TableModel {
    (table_keys(t), table_strings(t), table_arrays(t))
}

/// Relies on `Table::get`, `Item::as_table` and `Table::contains_key`: whether the `mods`
/// table holds an item under `key`, or none when `mods` is not a table.
#[verifier::external_body]
fn mods_contains(doc: &toml_edit::Document, key: &str) -> (r: Option<bool>)
    ensures
        match mod_keys(*doc) {
            Some(ks) => r == Some(ks.contains(key@)),
            None => r is None,
        },
        r == Some(false) ==> !mod_tables(*doc).dom().contains(key@),
{
    doc.get("mods").and_then(|m| m.as_table()).map(|m| m.contains_key(key))
}

/// Relies on `Table::get_mut`, `Item::as_table_mut`, `Table::remove` and `Table::insert`:
/// any empty slot under `key` is taken out first, so the new table goes last in `mods`, and
/// the entries before it are left as they were.
#[verifier::external_body]
fn insert_into_mods(doc: &mut toml_edit::Document, key: &str, table: toml_edit::Table)
    requires
        mod_keys(*old(doc)) is Some,
        !mod_keys(*old(doc))->Some_0.contains(key@),
    ensures
        mod_keys(*final(doc)) == Some(mod_keys(*old(doc))->Some_0.push(key@)),
        mod_tables(*final(doc)) == mod_tables(*old(doc)).insert(key@, table_model(table)),
{
    if let Some(mods) = doc.get_mut("mods").and_then(|m| m.as_table_mut()) {
        mods.remove(key);
        mods.insert(key, toml_edit::Item::Table(table));
    }
}

/// The fields that an entry is written with: `main_file` always, and each list of extra
/// files only when it is not empty.
pub open spec fn entry_fields(e: (Seq<char>, Seq<Seq<char>>, Seq<Seq<char>>)) -> Seq<Seq<char>> {
    seq!["main_file"@]
        + (if e.1.len() > 0 { seq!["optional_files"@] } else { Seq::empty() })
        + (if e.2.len() > 0 { seq!["misc_files"@] } else { Seq::empty() })
}

pub open spec fn entry_arrays(e: (Seq<char>, Seq<Seq<char>>, Seq<Seq<char>>)) -> Map<Seq<char>, Seq<Seq<char>>> {
    let m1 = if e.1.len() > 0 {
        Map::<Seq<char>, Seq<Seq<char>>>::empty().insert("optional_files"@, e.1)
    } else {
        Map::empty()
    };
    if e.2.len() > 0 {
        m1.insert("misc_files"@, e.2)
    } else {
        m1
    }
}

/// The table that an entry is written as.
pub fn entry_table(entry: &ModEntry) -> (r: toml_edit::Table)
    ensures
        table_keys(r) == entry_fields(entry@),
        table_strings(r) == Map::<Seq<char>, Seq<char>>::empty().insert("main_file"@, entry.main_file@),
        table_arrays(r) == entry_arrays(entry@),
{
    proof {
        reveal_strlit("main_file");
        reveal_strlit("optional_files");
        reveal_strlit("misc_files");
        assert("main_file"@.len() == 9);
        assert("optional_files"@.len() == 14);
        assert("misc_files"@.len() == 10);
    }
    let mut t = new_table();
    assert(table_keys(t) =~= Seq::empty());
    assert(table_strings(t) =~= Map::empty());
    assert(table_arrays(t) =~= Map::empty());
    set_string(&mut t, "main_file", entry.main_file.as_str());
    if entry.optional_files.len() > 0 {
        assert(!table_keys(t).contains("optional_files"@)) by {
            assert(table_keys(t) =~= seq!["main_file"@]);
            assert(table_keys(t)[0] != "optional_files"@);
        }
        set_array(&mut t, "optional_files", &entry.optional_files);
    }
    if entry.misc_files.len() > 0 {
        assert(!table_keys(t).contains("misc_files"@)) by {
            assert(table_keys(t)[0] == "main_file"@);
            assert(table_keys(t).len() <= 2);
            if table_keys(t).len() == 2 {
                assert(table_keys(t)[1] == "optional_files"@);
                assert(table_keys(t)[1] != "misc_files"@);
            }
            assert(table_keys(t)[0] != "misc_files"@);
        }
        set_array(&mut t, "misc_files", &entry.misc_files);
    }
    assert(table_keys(t) =~= entry_fields(entry@));
    assert(table_arrays(t) =~= entry_arrays(entry@));
    t
}

pub open spec fn entry_model(e: (Seq<char>, Seq<Seq<char>>, Seq<Seq<char>>)) -> TableModel {
    (entry_fields(e), Map::empty().insert("main_file"@, e.0), entry_arrays(e))
}

/// What adding the entry `e` under `key` does to a document: a `mods` that is not a table
/// and a key that is already there are refused with the document unchanged; otherwise `key`
/// goes last, its table is `entry_model(e)`, and every entry before it keeps its place and
/// its contents.
pub open spec fn appended(
    before: toml_edit::Document,
    after: toml_edit::Document,
    r: Result<(), ModError>,
    key: Seq<char>,
    e: (Seq<char>, Seq<Seq<char>>, Seq<Seq<char>>),
) -> bool {
    match mod_keys(before) {
        None => r == Err::<(), ModError>(ModError::ManifestMalformed) && after == before,
        Some(ks) => if ks.contains(key) {
            r == Err::<(), ModError>(ModError::DuplicateEntry) && after == before
        } else {
            &&& r is Ok
            &&& mod_keys(after) == Some(ks.push(key))
            &&& mod_keys(after)->Some_0.len() == ks.len() + 1
            &&& mod_keys(after)->Some_0.subrange(0, ks.len() as int) == ks
            &&& !mod_tables(before).dom().contains(key)
            &&& mod_tables(after) == mod_tables(before).insert(key, entry_model(e))
        },
    }
}

/// Adds an entry for mod `mod_id` under the key `<mod_id>_<slug of mod_name>` at the end of
/// the `mods` table, written as `entry_table` writes it, leaving the entries before it as
/// they were. The key holds only path-safe characters. A key that is already there
/// is refused, and so is a document whose `mods` is not a table; either way the document is
/// left unchanged.
pub fn append_entry(doc: &mut toml_edit::Document, mod_id: u32, mod_name: &str, entry: &ModEntry) -> (r: Result<(), ModError>)
    ensures
        is_safe_token(compose(mod_id, slug_of(mod_name@))),
        appended(*old(doc), *final(doc), r, compose(mod_id, slug_of(mod_name@)), entry@),
{
    let key = encode_id(mod_id, mod_name);
    match mods_contains(doc, key.as_str()) {
        None => Err(ModError::ManifestMalformed),
        Some(true) => Err(ModError::DuplicateEntry),
        Some(false) => {
            let table = entry_table(entry);
            insert_into_mods(doc, key.as_str(), table);
            proof {
                let ks = mod_keys(*old(doc))->Some_0;
                assert(ks.push(key@).subrange(0, ks.len() as int) =~= ks);
            }
            Ok(())
        },
    }
}

/// The decision part of adding a mod: the operator's choices among the mod's files make the
/// entry, which is added under `<mod_id>_<slug of mod_name>`. A choice outside its list
/// cancels with the document unchanged. Every identifier written is path-safe.
pub fn add_mod(
    doc: &mut toml_edit::Document,
    mod_id: u32,
    mod_name: &str,
    files: &ModFiles,
    main_pick: usize,
    optional_picks: &Vec<usize>,
    misc_picks: &Vec<usize>,
) -> (r: Result<(), ModError>)
    ensures
        ({
            let ok = main_pick < files.main_files@.len()
                && picks_valid(optional_picks@, files.optional_files@.len() as int)
                && picks_valid(misc_picks@, files.misc_files@.len() as int);
            let e = (
                file_token(files.main_files@[main_pick as int]),
                picked_tokens(files.optional_files@, optional_picks@),
                picked_tokens(files.misc_files@, misc_picks@),
            );
            &&& !ok ==> r == Err::<(), ModError>(ModError::SelectionCancelled) && *final(doc) == *old(doc)
            &&& ok ==> appended(*old(doc), *final(doc), r, compose(mod_id, slug_of(mod_name@)), e)
            &&& ok ==> is_safe_token(compose(mod_id, slug_of(mod_name@)))
                && is_safe_token(e.0) && all_safe(e.1) && all_safe(e.2)
        }),
{
    let entry = choose_entry(files, main_pick, optional_picks, misc_picks)?;
    append_entry(doc, mod_id, mod_name, &entry)
}

} // verus!
