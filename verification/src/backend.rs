//! The trusted boundary to the sled key-value substrate.
//!
//! Each keyspace's contents are named by [`tree_entries`] (and the default
//! keyspace's by [`db_entries`]); every wrapper here states over those names
//! what the called sled function does, as sled's source shows it.  Nothing is
//! claimed of a call that fails with a storage error beyond what sled
//! guarantees.

use vstd::prelude::*;
use crate::binary_encoder::{lex_lt, starts_with};
use crate::error::UnabortableTransactionError;
use vstd::utf8::{encode_utf8, valid_utf8};

verus! {

#[verifier::external_type_specification]
#[verifier::external_body]
pub struct ExDb(sled::Db);

#[verifier::external_type_specification]
#[verifier::external_body]
pub struct ExTree(sled::Tree);

#[verifier::external_type_specification]
#[verifier::external_body]
pub struct ExTransactionalTree(sled::transaction::TransactionalTree);

/// The entries of one sled keyspace: keys to values, both byte strings.
pub uninterp spec fn tree_entries(t: sled::Tree) -> Map<Seq<u8>, Seq<u8>>;

/// The entries of the default (unnamed) keyspace of a sled database.
pub uninterp spec fn db_entries(db: sled::Db) -> Map<Seq<u8>, Seq<u8>>;

/// The staged view of one keyspace inside an open transaction: the committed
/// entries overlaid with the transaction's staged writes and deletes.
pub uninterp spec fn ttree_entries(t: sled::transaction::TransactionalTree) -> Map<
    Seq<u8>,
    Seq<u8>,
>;

/// Relies on sled::Config::open with `temporary(true)`: the database starts
/// in a fresh directory, so its default keyspace is empty.
#[verifier::external_body]
pub(crate) fn open_temporary_db() -> (r: Result<sled::Db, std::io::Error>)
    ensures
        r matches Ok(db) ==> db_entries(db) == (Map::<Seq<u8>, Seq<u8>>::empty()),
{
    sled::Config::new().temporary(true).open().map_err(std::io::Error::from)
}

/// Relies on sled::Config::open: opens the database at `path`, with whatever
/// entries were persisted there (a finite store).
#[verifier::external_body]
pub(crate) fn open_db(path: &str) -> (r: Result<sled::Db, std::io::Error>)
    ensures
        r matches Ok(db) ==> db_entries(db).dom().finite(),
{
    sled::Config::new().path(path).open().map_err(std::io::Error::from)
}

/// Relies on sled::Db::open_tree: opens or creates the named keyspace, with
/// whatever entries were persisted there (a finite store).
#[verifier::external_body]
pub(crate) fn open_tree(db: &sled::Db, name: &str) -> (r: Result<sled::Tree, std::io::Error>)
    ensures
        r matches Ok(t) ==> tree_entries(t).dom().finite(),
{
    db.open_tree(name).map_err(std::io::Error::from)
}

/// Relies on sled::Tree::get (through the `Db` handle, on the default
/// keyspace): returns the value stored under `key`, if any.
#[verifier::external_body]
pub(crate) fn db_get(db: &sled::Db, key: &[u8]) -> (r: Result<Option<Vec<u8>>, std::io::Error>)
    ensures
        r matches Ok(v) ==> ((v is Some <==> db_entries(*db).dom().contains(key@)) && (
        v matches Some(b) ==> b@ == db_entries(*db)[key@])),
{
    match db.get(key) {
        Ok(v) => Ok(v.map(|b| b.to_vec())),
        Err(e) => Err(std::io::Error::from(e)),
    }
}

/// Relies on sled::Tree::insert (through the `Db` handle, on the default
/// keyspace): stores `value` under `key`.  On an error the write may or may
/// not have been applied.
#[verifier::external_body]
pub(crate) fn db_insert(db: &mut sled::Db, key: &[u8], value: &[u8]) -> (r: Result<
    (),
    std::io::Error,
>)
    ensures
        r matches Ok(_) ==> db_entries(*final(db)) == db_entries(*old(db)).insert(key@, value@),
        r matches Err(_) ==> db_entries(*final(db)) == db_entries(*old(db)) || db_entries(*final(db))
            == db_entries(*old(db)).insert(key@, value@),
{
    match db.insert(key, value) {
        Ok(_) => Ok(()),
        Err(e) => Err(std::io::Error::from(e)),
    }
}

/// Relies on sled::Tree::flush: blocks until all pending writes are durable.
#[verifier::external_body]
pub(crate) fn db_flush(db: &sled::Db) -> (r: Result<(), std::io::Error>) {
    match db.flush() {
        Ok(_) => Ok(()),
        Err(e) => Err(std::io::Error::from(e)),
    }
}

/// Relies on sled::Tree::flush: blocks until this keyspace's pending writes
/// are durable.
#[verifier::external_body]
pub(crate) fn tree_flush(t: &sled::Tree) -> (r: Result<(), std::io::Error>) {
    match t.flush() {
        Ok(_) => Ok(()),
        Err(e) => Err(std::io::Error::from(e)),
    }
}

/// Relies on sled::Tree::get: returns the value stored under `key`, if any.
#[verifier::external_body]
pub(crate) fn tree_get(t: &sled::Tree, key: &[u8]) -> (r: Result<Option<Vec<u8>>, std::io::Error>)
    ensures
        r matches Ok(v) ==> ((v is Some <==> tree_entries(*t).dom().contains(key@)) && (
        v matches Some(b) ==> b@ == tree_entries(*t)[key@])),
{
    match t.get(key) {
        Ok(v) => Ok(v.map(|b| b.to_vec())),
        Err(e) => Err(std::io::Error::from(e)),
    }
}

/// Relies on sled::Tree::contains_key.
#[verifier::external_body]
pub(crate) fn tree_contains_key(t: &sled::Tree, key: &[u8]) -> (r: Result<bool, std::io::Error>)
    ensures
        r matches Ok(b) ==> b == tree_entries(*t).dom().contains(key@),
{
    t.contains_key(key).map_err(std::io::Error::from)
}

/// Relies on sled::Tree::insert: stores `value` under `key` and reports
/// whether the key was new.  On an error the write may or may not have been
/// applied.
#[verifier::external_body]
pub(crate) fn tree_insert(t: &mut sled::Tree, key: &[u8], value: &[u8]) -> (r: Result<
    bool,
    std::io::Error,
>)
    ensures
        r matches Ok(is_new) ==> (tree_entries(*final(t)) == tree_entries(*old(t)).insert(
            key@,
            value@,
        ) && (is_new <==> !tree_entries(*old(t)).dom().contains(key@))),
        r matches Err(_) ==> tree_entries(*final(t)) == tree_entries(*old(t)) || tree_entries(
            *final(t),
        ) == tree_entries(*old(t)).insert(key@, value@),
{
    match t.insert(key, value) {
        Ok(prev) => Ok(prev.is_none()),
        Err(e) => Err(std::io::Error::from(e)),
    }
}

/// Relies on sled::Tree::remove: deletes `key` and reports whether it was
/// present.  On an error the delete may or may not have been applied.
#[verifier::external_body]
pub(crate) fn tree_remove(t: &mut sled::Tree, key: &[u8]) -> (r: Result<bool, std::io::Error>)
    ensures
        r matches Ok(was_present) ==> (tree_entries(*final(t)) == tree_entries(*old(t)).remove(
            key@,
        ) && (was_present <==> tree_entries(*old(t)).dom().contains(key@))),
        r matches Err(_) ==> tree_entries(*final(t)) == tree_entries(*old(t)) || tree_entries(
            *final(t),
        ) == tree_entries(*old(t)).remove(key@),
{
    match t.remove(key) {
        Ok(prev) => Ok(prev.is_some()),
        Err(e) => Err(std::io::Error::from(e)),
    }
}

/// Relies on sled::Tree::clear: removes every entry, one key at a time, so an
/// error leaves some subset of the old entries.
#[verifier::external_body]
pub(crate) fn tree_clear(t: &mut sled::Tree) -> (r: Result<(), std::io::Error>)
    ensures
        r matches Ok(_) ==> tree_entries(*final(t)) == (Map::<Seq<u8>, Seq<u8>>::empty()),
        r matches Err(_) ==> forall|k: Seq<u8>|
            #[trigger] tree_entries(*final(t)).dom().contains(k) ==> tree_entries(
                *old(t),
            ).dom().contains(k) && tree_entries(*final(t))[k] == tree_entries(*old(t))[k],
{
    t.clear().map_err(std::io::Error::from)
}

/// Relies on sled::Tree::scan_prefix: yields exactly the keys that start
/// with `prefix`, each once, in ascending byte-lexicographic order (the scan
/// walks the ordered tree over the prefix's range).
#[verifier::external_body]
pub(crate) fn tree_scan_prefix(t: &sled::Tree, prefix: &[u8]) -> (r: Result<
    Vec<Vec<u8>>,
    std::io::Error,
>)
    ensures
        r matches Ok(keys) ==> ((forall|i: int|
            0 <= i < keys@.len() ==> tree_entries(*t).dom().contains(#[trigger] keys@[i]@)
                && starts_with(prefix@, keys@[i]@)) && (forall|k: Seq<u8>|
            #[trigger] tree_entries(*t).dom().contains(k) && starts_with(prefix@, k)
                ==> exists|i: int| 0 <= i < keys@.len() && #[trigger] keys@[i]@ == k) && (
        forall|i: int, j: int| 0 <= i < j < keys@.len() ==> keys@[i]@ != keys@[j]@) && (
        forall|i: int, j: int| 0 <= i < j < keys@.len() ==> lex_lt(keys@[i]@, keys@[j]@))),
{
    let mut out: Vec<Vec<u8>> = Vec::new();
    for item in t.scan_prefix(prefix) {
        let (k, _) = item.map_err(std::io::Error::from)?;
        out.push(k.to_vec());
    }
    Ok(out)
}

/// Relies on sled::transaction::TransactionalTree::insert: reads the prior
/// value from the staged view (an error there returns before anything is
/// staged), then stages `value` under `key`; reports whether the key was
/// absent from the staged view.
#[verifier::external_body]
pub(crate) fn transactional_tree_insert(
    t: &mut sled::transaction::TransactionalTree,
    key: &[u8],
    value: &[u8],
) -> (r: Result<bool, UnabortableTransactionError>)
    ensures
        r matches Ok(is_new) ==> (ttree_entries(*final(t)) == ttree_entries(*old(t)).insert(
            key@,
            value@,
        ) && (is_new <==> !ttree_entries(*old(t)).dom().contains(key@))),
        r matches Err(_) ==> ttree_entries(*final(t)) == ttree_entries(*old(t)),
{
    match t.insert(key, value) {
        Ok(prev) => Ok(prev.is_none()),
        Err(sled::transaction::UnabortableTransactionError::Conflict) => Err(
            UnabortableTransactionError::Conflict,
        ),
        Err(sled::transaction::UnabortableTransactionError::Storage(e)) => Err(
            UnabortableTransactionError::Storage(std::io::Error::from(e)),
        ),
    }
}

/// Relies on sled::transaction::TransactionalTree::remove: stages a delete of
/// `key` even when its own read of the prior value fails, and reports whether
/// the key was present in the staged view.
#[verifier::external_body]
pub(crate) fn transactional_tree_remove(
    t: &mut sled::transaction::TransactionalTree,
    key: &[u8],
) -> (r: Result<bool, UnabortableTransactionError>)
    ensures
        ttree_entries(*final(t)) == ttree_entries(*old(t)).remove(key@),
        r matches Ok(was_present) ==> (was_present <==> ttree_entries(*old(t)).dom().contains(
            key@,
        )),
{
    match t.remove(key) {
        Ok(prev) => Ok(prev.is_some()),
        Err(sled::transaction::UnabortableTransactionError::Conflict) => Err(
            UnabortableTransactionError::Conflict,
        ),
        Err(sled::transaction::UnabortableTransactionError::Storage(e)) => Err(
            UnabortableTransactionError::Storage(std::io::Error::from(e)),
        ),
    }
}

/// Relies on sled::transaction::TransactionalTree::get: the value under `key`
/// in the staged view (staged writes first, then the committed tree).
#[verifier::external_body]
pub(crate) fn transactional_tree_get(
    t: &sled::transaction::TransactionalTree,
    key: &[u8],
) -> (r: Result<Option<Vec<u8>>, UnabortableTransactionError>)
    ensures
        r matches Ok(v) ==> ((v is Some <==> ttree_entries(*t).dom().contains(key@)) && (
        v matches Some(b) ==> b@ == ttree_entries(*t)[key@])),
{
    match t.get(key) {
        Ok(v) => Ok(v.map(|b| b.to_vec())),
        Err(sled::transaction::UnabortableTransactionError::Conflict) => Err(
            UnabortableTransactionError::Conflict,
        ),
        Err(sled::transaction::UnabortableTransactionError::Storage(e)) => Err(
            UnabortableTransactionError::Storage(std::io::Error::from(e)),
        ),
    }
}

pub assume_specification[ <sled::transaction::TransactionalTree as Clone>::clone ](
    t: &sled::transaction::TransactionalTree,
) -> sled::transaction::TransactionalTree;



/// Relies on std::io::Error::new: an invalid-data error carrying `msg`.
#[verifier::external_body]
pub(crate) fn invalid_data_error(msg: &str) -> std::io::Error {
    std::io::Error::new(std::io::ErrorKind::InvalidData, msg.to_string())
}

/// Relies on std::io::Error::new: the message that directs the user of a
/// store with an outdated encoding version to dump and reload it.
#[verifier::external_body]
pub(crate) fn outdated_version_error(version: u64) -> std::io::Error {
    std::io::Error::new(
        std::io::ErrorKind::InvalidData,
        format!(
            "The database is using the outdated encoding version {}. Please dump the dataset with a compatible release and load it again",
            version,
        ),
    )
}

/// Relies on std::io::Error::new: the message that tells the user a store was
/// written by a more recent engine.
#[verifier::external_body]
pub(crate) fn too_recent_version_error(version: u64) -> std::io::Error {
    std::io::Error::new(
        std::io::ErrorKind::InvalidData,
        format!(
            "The database is using the too recent version {}. Upgrade to the latest engine release to load this database",
            version,
        ),
    )
}

/// Relies on String::from_utf8: succeeds exactly when `v` is valid UTF-8,
/// and the returned string's UTF-8 form is `v`.
#[verifier::external_body]
pub(crate) fn bytes_to_string(v: Vec<u8>) -> (r: Option<String>)
    ensures
        r is Some <==> valid_utf8(v@),
        r matches Some(s) ==> encode_utf8(s@) == v@,
{
    String::from_utf8(v).ok()
}

} // verus!
