use std::collections::VecDeque;

use vstd::prelude::*;

use crate::date::today_tree_name;
use crate::error::CoreError;
use crate::history::{
    all_text, entries_view, history_from_entries, history_of, labelled_all, strings_view, turns_view,
    decimal_value, has_key_shape, keys_ascending, keys_descending, stamp_of_latest,
    window_from_latest, RawEntry, STAMP_DIGITS, WINDOW_ENTRIES,
};

verus! {

#[verifier::external_type_specification]
#[verifier::external_body]
pub struct ExDb(sled::Db);

#[verifier::external_type_specification]
#[verifier::external_body]
pub struct ExTree(sled::Tree);

#[verifier::external_type_specification]
#[verifier::external_body]
pub struct ExSledError(sled::Error);

/// Relies on sled::Config::path and sled::Config::open: opens (or creates)
/// the store at `path`. What it finds on disk decides the outcome.
#[verifier::external_body]
fn open_store(path: &str) -> (r: Result<sled::Db, sled::Error>) {
    sled::Config::default().path(path).open()
}

/// Relies on sled::Db::open_tree: opens (or creates) the tree called `name`.
#[verifier::external_body]
fn open_named_tree(db: &sled::Db, name: &str) -> (r: Result<sled::Tree, sled::Error>) {
    db.open_tree(name)
}

/// Relies on sled::Tree::clear: removes every entry of the tree.
#[verifier::external_body]
fn remove_all(tree: &sled::Tree) -> (r: Result<(), sled::Error>) {
    tree.clear()
}

/// Relies on sled::Batch::insert and sled::Tree::apply_batch: writes both
/// entries in one atomic batch.
#[verifier::external_body]
fn write_pair(tree: &sled::Tree, k1: &str, v1: &str, k2: &str, v2: &str) -> (r: Result<
    (),
    sled::Error,
>) {
    let mut batch = sled::Batch::default();
    batch.insert(k1, v1);
    batch.insert(k2, v2);
    tree.apply_batch(batch)
}

/// Relies on sled::Tree::iter (sled::Iter::next): every entry of the tree as
/// bytes, each key strictly after the one before it.
#[verifier::external_body]
fn scan_in_order(tree: &sled::Tree) -> (r: Result<Vec<RawEntry>, sled::Error>)
    ensures
        r matches Ok(v) ==> keys_ascending(entries_view(v@)),
{
    tree.iter().map(|kv| kv.map(|(k, v)| (k.to_vec(), v.to_vec()))).collect()
}

/// Relies on sled::Tree::iter walked from its back end (sled::Iter's
/// next_back) and std's Iterator::take: the last `n` entries of the tree
/// (fewer if it holds fewer), newest first, as bytes: each key strictly
/// before the one before it.
#[verifier::external_body]
fn scan_newest(tree: &sled::Tree, n: usize) -> (r: Result<Vec<RawEntry>, sled::Error>)
    ensures
        r matches Ok(v) ==> v.len() <= n && keys_descending(entries_view(v@)),
{
    tree.iter().rev().take(n).map(|kv| kv.map(|(k, v)| (k.to_vec(), v.to_vec()))).collect()
}

/// Opens the durable store kept at `path`.
pub fn init_db(path: &str) -> (r: Result<sled::Db, CoreError>)
    ensures
        r matches Err(e) ==> e == CoreError::StorageUnavailable,
{
    match open_store(path) {
        Ok(db) => Ok(db),
        Err(_) => Err(CoreError::StorageUnavailable),
    }
}

/// Opens the conversation tree of a given day name, creating it if needed.
pub fn open_tree(db: &sled::Db, name: &str) -> (r: Result<sled::Tree, CoreError>)
    ensures
        r matches Err(e) ==> e == CoreError::StorageUnavailable,
{
    match open_named_tree(db, name) {
        Ok(t) => Ok(t),
        Err(_) => Err(CoreError::StorageUnavailable),
    }
}

/// Opens today's conversation tree, named after the local date. Fails with
/// `StorageUnavailable` when the date cannot be read or the tree opened.
pub fn setup_tree(db: &sled::Db) -> (r: Result<sled::Tree, CoreError>)
    ensures
        r matches Err(e) ==> e == CoreError::StorageUnavailable,
{
    match today_tree_name() {
        Some(name) => open_tree(db, name.as_str()),
        None => Err(CoreError::StorageUnavailable),
    }
}

/// Removes every turn of a tree.
pub fn clear_tree(tree: &sled::Tree) -> (r: Result<(), CoreError>)
    ensures
        r matches Err(e) ==> e == CoreError::StorageWriteFailed,
{
    match remove_all(tree) {
        Ok(()) => Ok(()),
        Err(_) => Err(CoreError::StorageWriteFailed),
    }
}

/// Appends a human turn and its assistant turn as one atomic batch.
pub fn insert_adjacency_pair(
    user_key: &str,
    user_message: &str,
    pana_key: &str,
    pana_message: &str,
    tree: &sled::Tree,
) -> (r: Result<(), CoreError>)
    ensures
        r matches Err(e) ==> e == CoreError::StorageWriteFailed,
{
    match write_pair(tree, user_key, user_message, pana_key, pana_message) {
        Ok(()) => Ok(()),
        Err(_) => Err(CoreError::StorageWriteFailed),
    }
}

/// The full history of a tree in insertion order, each turn with its role
/// code. The turns are `history_from_entries` of the scanned entries.
pub fn get_history(tree: &sled::Tree) -> (r: Result<Vec<(u8, String)>, CoreError>)
    ensures
        r matches Ok(h) ==> exists|es: Seq<(Seq<u8>, Seq<u8>)>|
            all_text(es) && keys_ascending(es) && turns_view(h@) == #[trigger] history_of(es),
        r matches Err(e) ==> e == CoreError::StorageUnavailable || e == CoreError::StorageCorrupt,
{
    match scan_in_order(tree) {
        Ok(entries) => {
            let r = history_from_entries(&entries);
            assert(r matches Ok(h) ==> all_text(entries_view(entries@)) && keys_ascending(
                entries_view(entries@),
            ) && turns_view(h@) == history_of(
                entries_view(entries@),
            ));
            r
        },
        Err(_) => Err(CoreError::StorageUnavailable),
    }
}

/// The adjacency window of a tree: its last (at most) four turns, labelled,
/// oldest first. The window is `window_from_latest` of the newest entries.
pub fn get_latest_adjacency_pairs(tree: &sled::Tree) -> (r: Result<
    VecDeque<(String, String)>,
    CoreError,
>)
    ensures
        r matches Ok(w) ==> w@.len() <= WINDOW_ENTRIES && exists|es: Seq<(Seq<u8>, Seq<u8>)>|
            es.len() <= WINDOW_ENTRIES && all_text(es) && keys_descending(es) && strings_view(w@)
                == #[trigger] labelled_all(es).reverse(),
        r matches Err(e) ==> e == CoreError::StorageUnavailable || e == CoreError::StorageCorrupt,
{
    match scan_newest(tree, WINDOW_ENTRIES) {
        Ok(latest) => {
            let r = window_from_latest(&latest);
            assert(r matches Ok(w) ==> strings_view(w@).len() == latest@.len() && all_text(
                entries_view(latest@),
            ) && entries_view(latest@).len() <= WINDOW_ENTRIES && keys_descending(entries_view(latest@))
                && strings_view(w@) == labelled_all(
                entries_view(latest@),
            ).reverse());
            r
        },
        Err(_) => Err(CoreError::StorageUnavailable),
    }
}

/// The stamp of the newest key of a tree: `None` when the tree is empty or
/// its newest key is not a turn key.
pub fn newest_stamp(tree: &sled::Tree) -> (r: Result<Option<u64>, CoreError>)
    ensures
        r matches Ok(Some(v)) ==> exists|k: Seq<u8>|
            has_key_shape(k) && v == #[trigger] decimal_value(k.take(STAMP_DIGITS as int)),
        r matches Err(e) ==> e == CoreError::StorageUnavailable,
{
    match scan_newest(tree, 1) {
        Ok(latest) => Ok(stamp_of_latest(&latest)),
        Err(_) => Err(CoreError::StorageUnavailable),
    }
}

} // verus!
