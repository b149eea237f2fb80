//! The alternative engine adapter: a thin layer over the embedded
//! B-tree store from the `sled` crate.  The adapter converts values
//! between text and bytes, translates the embedded store's failures
//! into the engine's error taxonomy, and shares the handle behind the
//! same lock pattern as the log-backed engine, for API symmetry.
//!
//! What the embedded store returns depends on its own files on disk
//! and on concurrent users of the same handle, so the wrappers here
//! promise only the shape of each answer; the adapter is verified to
//! cope with every answer.

use vstd::prelude::*;
use vstd::rwlock::RwLock;

use std::sync::Arc;

use crate::engine::KvsEngine;
use crate::error::Error;
use sled::Error as SledFailure;

verus! {

/// Declares the embedded store's handle so it can live in a field.
#[verifier::external_type_specification]
#[verifier::external_body]
pub struct ExDb(sled::Db);

/// Declares the embedded store's error so a wrapper can return it.
#[verifier::external_type_specification]
#[verifier::external_body]
pub struct ExSledError(SledFailure);

/// Relies on sled::Db::clone: a clone is another handle on the same
/// underlying store.
pub assume_specification[ <sled::Db as Clone>::clone ](db: &sled::Db) -> sled::Db;

/// Relies on sled::open: opens or creates the embedded store in the
/// given directory.
#[verifier::external_body]
pub(crate) fn sled_open(path: &String) -> Result<sled::Db, sled::Error> {
    sled::open(path.as_str())
}

/// Relies on sled::Tree::insert: binds the key to the value and
/// returns the previously bound value, if any.
#[verifier::external_body]
pub(crate) fn sled_insert(db: &sled::Db, key: &String, value: &String) -> Result<Option<Vec<u8>>, sled::Error> {
    match db.insert(key.as_bytes(), value.as_bytes()) {
        Ok(prev) => Ok(prev.map(|v| v.to_vec())),
        Err(e) => Err(e),
    }
}

/// Relies on sled::Tree::get: returns the value bound to the key, if
/// any.
#[verifier::external_body]
pub(crate) fn sled_get(db: &sled::Db, key: &String) -> Result<Option<Vec<u8>>, sled::Error> {
    match db.get(key.as_bytes()) {
        Ok(v) => Ok(v.map(|v| v.to_vec())),
        Err(e) => Err(e),
    }
}

/// Relies on sled::Tree::remove: deletes the key's binding and returns
/// the old value, if one existed.
#[verifier::external_body]
pub(crate) fn sled_remove(db: &sled::Db, key: &String) -> Result<Option<Vec<u8>>, sled::Error> {
    match db.remove(key.as_bytes()) {
        Ok(prev) => Ok(prev.map(|v| v.to_vec())),
        Err(e) => Err(e),
    }
}

/// Shape the embedded store's answer to a lookup: an absent key stays
/// absent; value bytes decode to text, or the conversion failure is
/// reported.
pub(crate) fn shape_sled_value(v: Option<Vec<u8>>) -> (r: Result<Option<String>, Error>)
    ensures
        v is None ==> (r matches Ok(o) && o is None),
        v matches Some(bytes) ==> {
            &&& vstd::utf8::valid_utf8(bytes@) ==> (r matches Ok(o) && o matches Some(s) && s@
                == vstd::utf8::decode_utf8(bytes@))
            &&& !vstd::utf8::valid_utf8(bytes@) ==> (r matches Err(e) && e is Utf8Error)
        },
{
    match v {
        Some(bytes) => match String::from_utf8(bytes) {
            Ok(text) => Ok(Some(text)),
            Err(_) => Err(Error::Utf8Error(String::from_str("invalid utf-8 value"))),
        },
        None => Ok(None),
    }
}

/// An embedded-store failure, rendered as the engine's error.
pub(crate) fn sled_error(e: sled::Error) -> (r: Error)
    ensures
        r is Sled,
{
    Error::Sled(e.to_string())
}

/// The inner state of the alternative engine: the embedded store's
/// handle.
#[derive(Debug, Clone)]
pub struct SledKvsEngineInner {
    db: sled::Db,
}

impl SledKvsEngineInner {
    /// Bind a key to a value in the embedded store.
    pub fn set(&mut self, key: String, value: String) -> (r: Result<(), Error>)
        ensures
            r matches Err(e) ==> e is Sled,
    {
        match sled_insert(&self.db, &key, &value) {
            Ok(_) => Ok(()),
            Err(error) => Err(sled_error(error)),
        }
    }

    /// Read the value bound to a key, decoding it back to text.
    pub fn get(&self, key: String) -> (r: Result<Option<String>, Error>)
        ensures
            r matches Err(e) ==> e is Sled || e is Utf8Error,
    {
        match sled_get(&self.db, &key) {
            Ok(result) => shape_sled_value(result),
            Err(error) => Err(sled_error(error)),
        }
    }

    /// Drop a key's binding in the embedded store.  When the store
    /// reports that no prior value existed, the key was absent and the
    /// engine contract calls for the no-such-key error.
    pub fn remove(&mut self, key: String) -> (r: Result<(), Error>)
        ensures
            r matches Err(e) ==> e is Sled || (e matches Error::NoKey(m) && m@
                == "Key not found"@),
    {
        match sled_remove(&self.db, &key) {
            Ok(Some(_)) => Ok(()),
            Ok(None) => Err(Error::NoKey(String::from_str("Key not found"))),
            Err(error) => Err(sled_error(error)),
        }
    }
}

/// Any inner state may sit in the lock: the embedded store keeps its
/// own invariants.
pub struct SledAny;

impl vstd::rwlock::RwLockPredicate<SledKvsEngineInner> for SledAny {
    open spec fn inv(self, s: SledKvsEngineInner) -> bool {
        true
    }
}

/// The alternative engine: a shareable handle over the embedded
/// store.
#[derive(Clone)]
pub struct SledKvsEngine {
    inner: Arc<RwLock<SledKvsEngineInner, SledAny>>,
}

impl SledKvsEngine {
    /// Open the embedded store in a directory.
    pub fn open(path: String) -> (r: Result<SledKvsEngine, Error>)
        ensures
            r matches Err(e) ==> e is Sled,
    {
        match sled_open(&path) {
            Ok(db) => Ok(
                SledKvsEngine {
                    inner: Arc::new(RwLock::new(SledKvsEngineInner { db }, Ghost(SledAny))),
                },
            ),
            Err(e) => Err(sled_error(e)),
        }
    }
}

impl KvsEngine for SledKvsEngine {
    /// Bind a key to a value in the shared embedded store.
    fn set(&self, key: String, value: String) -> (r: Result<(), Error>)
        ensures
            r matches Err(e) ==> e is Sled,
    {
        let (mut s, handle) = self.inner.acquire_write();
        let r = s.set(key, value);
        handle.release_write(s);
        r
    }

    /// Read the current value of a key from the shared embedded store.
    fn get(&self, key: String) -> (r: Result<Option<String>, Error>)
        ensures
            r matches Err(e) ==> e is Sled || e is Utf8Error,
    {
        let handle = self.inner.acquire_read();
        let r = handle.borrow().get(key);
        handle.release_read();
        r
    }

    /// Retire a key in the shared embedded store; an absent key is the
    /// no-such-key error.
    fn remove(&self, key: String) -> (r: Result<(), Error>)
        ensures
            r matches Err(e) ==> e is Sled || e is NoKey,
    {
        let (mut s, handle) = self.inner.acquire_write();
        let r = s.remove(key);
        handle.release_write(s);
        r
    }
}

} // verus!
