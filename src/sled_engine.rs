//! The embedded sorted-map backend. The tree synchronizes its own readers
//! and writers, and every mutation is flushed before it is reported done.
use crate::codec::utf8_to_string;
use crate::engine::KvsEngine;
use crate::error::KvError;
use vstd::prelude::*;
use vstd::utf8::{decode_utf8, valid_utf8};

verus! {

/// Declares `sled::Db`, a handle on a database kept on disk; its contents
/// are not modelled, as any clone of the handle may change them.
#[verifier::external_type_specification]
#[verifier::external_body]
pub struct ExDb(sled::Db);

/// Relies on `Db`'s `Clone`: the copy is another handle on the same database.
pub assume_specification[ <sled::Db as Clone>::clone ](db: &sled::Db) -> sled::Db;

/// Relies on `sled::open`: opens the database kept in the directory `path`,
/// creating it where there is none.
#[verifier::external_body]
fn sled_open(path: &std::path::PathBuf) -> Result<sled::Db, sled::Error> {
    sled::open(path)
}

/// Relies on `Tree::insert`: stores `value` under the UTF-8 bytes of `key`.
#[verifier::external_body]
fn sled_insert(db: &sled::Db, key: &str, value: Vec<u8>) -> Result<(), sled::Error> {
    db.insert(key.as_bytes(), value).map(|_| ())
}

/// Relies on `Tree::get`: the bytes stored under the UTF-8 bytes of `key`.
#[verifier::external_body]
fn sled_get(db: &sled::Db, key: &str) -> Result<Option<Vec<u8>>, sled::Error> {
    db.get(key.as_bytes()).map(|found| found.map(|v| v.to_vec()))
}

/// Relies on `Tree::remove`: deletes what is stored under the UTF-8 bytes of
/// `key`, and hands it back.
#[verifier::external_body]
fn sled_remove(db: &sled::Db, key: &str) -> Result<Option<Vec<u8>>, sled::Error> {
    db.remove(key.as_bytes()).map(|found| found.map(|v| v.to_vec()))
}

/// Relies on `Tree::flush`: writes every buffered change to disk.
#[verifier::external_body]
fn sled_flush(db: &sled::Db) -> Result<(), sled::Error> {
    db.flush().map(|_| ())
}

/// The value that a lookup found as bytes: `Utf8` where they are not UTF-8.
pub fn found_value(found: Option<Vec<u8>>) -> (r: Result<Option<String>, KvError>)
    ensures
        match found {
            None => r matches Ok(None),
            Some(b) => if valid_utf8(b@) {
                r matches Ok(Some(s)) && s@ == decode_utf8(b@)
            } else {
                r matches Err(KvError::Utf8)
            },
        },
{
    match found {
        None => Ok(None),
        Some(b) => match utf8_to_string(b) {
            Some(s) => Ok(Some(s)),
            None => Err(KvError::Utf8),
        },
    }
}

/// What a removal that found `found` under the key means: `KeyNotFound`
/// exactly when nothing was there.
pub fn removed_outcome(found: Option<Vec<u8>>) -> (r: Result<(), KvError>)
    ensures
        (r matches Err(KvError::KeyNotFound)) <==> found is None,
        found is Some ==> r is Ok,
{
    match found {
        Some(_) => Ok(()),
        None => Err(KvError::KeyNotFound),
    }
}

/// A store kept in a sled database.
#[derive(Clone)]
pub struct SledKvsEngine {
    tree: sled::Db,
}

impl SledKvsEngine {
    /// Opens the database in the directory `path`.
    pub fn new(path: &std::path::PathBuf) -> (r: Result<SledKvsEngine, KvError>)
        ensures
            r matches Err(e) ==> e is Sled,
    {
        match sled_open(path) {
            Ok(tree) => Ok(SledKvsEngine { tree }),
            Err(e) => Err(KvError::Sled(e)),
        }
    }
}

impl KvsEngine for SledKvsEngine {
    /// A set fails only where sled fails.
    open spec fn set_answer(&self, key: Seq<char>, value: Seq<char>, r: Result<(), KvError>) -> bool {
        r matches Err(e) ==> e is Sled
    }

    /// A get fails only where sled fails or the stored bytes are not UTF-8.
    open spec fn get_answer(&self, key: Seq<char>, r: Result<Option<String>, KvError>) -> bool {
        r matches Err(e) ==> (e is Sled || e is Utf8)
    }

    /// A remove fails only where sled fails or nothing is stored under the key.
    open spec fn remove_answer(&self, key: Seq<char>, r: Result<(), KvError>) -> bool {
        r matches Err(e) ==> (e is Sled || e is KeyNotFound)
    }

    fn set(&self, key: String, value: String) -> (r: Result<(), KvError>) {
        let bytes = value.as_str().as_bytes_vec();
        match sled_insert(&self.tree, key.as_str(), bytes) {
            Ok(()) => {},
            Err(e) => {
                return Err(KvError::Sled(e));
            },
        }
        match sled_flush(&self.tree) {
            Ok(()) => Ok(()),
            Err(e) => Err(KvError::Sled(e)),
        }
    }

    fn get(&self, key: String) -> (r: Result<Option<String>, KvError>) {
        match sled_get(&self.tree, key.as_str()) {
            Ok(found) => found_value(found),
            Err(e) => Err(KvError::Sled(e)),
        }
    }

    fn remove(&self, key: String) -> (r: Result<(), KvError>) {
        match sled_remove(&self.tree, key.as_str()) {
            Ok(found) => {
                let outcome = removed_outcome(found);
                if outcome.is_err() {
                    return outcome;
                }
            },
            Err(e) => {
                return Err(KvError::Sled(e));
            },
        }
        match sled_flush(&self.tree) {
            Ok(()) => Ok(()),
            Err(e) => Err(KvError::Sled(e)),
        }
    }
}

} // verus!
