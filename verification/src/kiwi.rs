//! A second spelling of the engine surface: the same log-backed store
//! core and the same embedded-store adapter, exposed behind the
//! alternative capability trait used by the newer request-serving
//! layer.

use vstd::prelude::*;
use vstd::rwlock::RwLock;

use std::sync::Arc;

use crate::codec::{spec_encode, SpecCommand};
use crate::error::Error;
use crate::log::{framed_from, replay_log};
use crate::sled_engine::{shape_sled_value, sled_error, sled_get, sled_insert, sled_open, sled_remove};
use crate::store::{concat_live_records, KvStoreInner, LogAction};

verus! {

/// The capability set of an engine, as the newer serving layer names
/// it: the same three operations as `KvsEngine`.
pub trait KiwiEngine: Clone + Send + 'static {
    fn set(&self, key: String, value: String) -> Result<(), Error>;

    fn get(&self, key: String) -> Result<Option<String>, Error>;

    fn remove(&self, key: String) -> Result<(), Error>;
}

/// The guarded inner state of the log-backed engine, under its newer
/// name: a wrapper around the store core with the core's contracts.
pub struct KiwiStoreInner {
    core: KvStoreInner,
}

impl KiwiStoreInner {
    /// The store as a map from live key to current value.
    pub closed spec fn view(&self) -> Map<Seq<char>, Seq<char>> {
        self.core@
    }

    /// The guarded store core is well formed.
    pub closed spec fn wf(&self) -> bool {
        self.core.wf()
    }

    /// The keydir as a map from live key to record offset.
    pub closed spec fn keydir_view(&self) -> Map<Seq<char>, u64> {
        self.core.keydir_view()
    }

    /// The bytes of the log.
    pub closed spec fn log_view(&self) -> Seq<u8> {
        self.core.log_view()
    }

    /// The keydir entries in storage order, as (key, offset) pairs.
    pub closed spec fn keydir_entries(&self) -> Seq<(Seq<char>, u64)> {
        self.core.keydir_entries()
    }

    /// The log is fully framed and replays to exactly the keydir.
    pub closed spec fn clean(&self) -> bool {
        self.core.clean()
    }

    /// Rebuild a store from the bytes of its log.
    pub fn open(bytes: Vec<u8>) -> (r: Result<KiwiStoreInner, Error>)
        ensures
            match r {
                Ok(s) => {
                    &&& s.wf()
                    &&& s.log_view() == bytes@
                    &&& replay_log(bytes@) == Some(s.keydir_view())
                    &&& (framed_from(bytes@, 0) ==> s.clean())
                },
                Err(e) => replay_log(bytes@) is None && e is InvalidData,
            },
    {
        match KvStoreInner::open(bytes) {
            Ok(core) => Ok(KiwiStoreInner { core }),
            Err(e) => Err(e),
        }
    }

    /// Bind a key to a value, overwriting any prior binding.  When the
    /// log has grown past the compaction threshold, compaction runs
    /// first and the whole log is rewritten.
    pub fn set(&mut self, key: String, value: String) -> (r: Result<LogAction, Error>)
        requires
            old(self).wf(),
        ensures
            final(self).wf(),
            final(self)@ == old(self)@.insert(key@, value@),
            old(self).clean() ==> final(self).clean(),
            match r {
                Ok(LogAction::Appended(b)) => {
                    &&& old(self).log_view().len() <= crate::COMPACTION_THRESHOLD
                    &&& final(self).log_view() == old(self).log_view() + b@
                    &&& b@ == spec_encode(SpecCommand::Put { key: key@, value: value@ })
                    &&& final(self).keydir_view()[key@] as int == old(self).log_view().len()
                },
                Ok(LogAction::Rewritten) => {
                    &&& old(self).log_view().len() > crate::COMPACTION_THRESHOLD
                    &&& final(self).clean()
                    &&& final(self).log_view().len() >= spec_encode(
                        SpecCommand::Put { key: key@, value: value@ },
                    ).len()
                    &&& final(self).log_view().skip(
                        final(self).log_view().len() - spec_encode(
                            SpecCommand::Put { key: key@, value: value@ },
                        ).len(),
                    ) == spec_encode(SpecCommand::Put { key: key@, value: value@ })
                    &&& final(self).keydir_view()[key@] as int == final(self).log_view().len()
                        - spec_encode(SpecCommand::Put { key: key@, value: value@ }).len()
                },
                Err(_) => false,
            },
    {
        self.core.set(key, value)
    }

    /// Look a key up; absent keys are not an error.
    pub fn get(&self, key: String) -> (r: Result<Option<String>, Error>)
        requires
            self.wf(),
        ensures
            match r {
                Ok(Some(s)) => self@.contains_key(key@) && s@ == self@[key@],
                Ok(None) => !self@.contains_key(key@),
                Err(_) => false,
            },
    {
        self.core.get(key)
    }

    /// Retire a key; removing an absent key is an error and changes
    /// nothing.
    pub fn remove(&mut self, key: String) -> (r: Result<LogAction, Error>)
        requires
            old(self).wf(),
        ensures
            final(self).wf(),
            old(self)@.contains_key(key@) ==> match r {
                Ok(LogAction::Appended(b)) => {
                    &&& b@ == spec_encode(SpecCommand::Remove { key: key@ })
                    &&& final(self).log_view() == old(self).log_view() + b@
                    &&& final(self)@ == old(self)@.remove(key@)
                    &&& (old(self).clean() ==> final(self).clean())
                },
                _ => false,
            },
            !old(self)@.contains_key(key@) ==> match r {
                Err(e) => {
                    &&& e matches Error::NoKey(m) && m@ == "Key not found"@
                    &&& final(self).log_view() == old(self).log_view()
                    &&& final(self)@ == old(self)@
                    &&& final(self).keydir_view() == old(self).keydir_view()
                },
                _ => false,
            },
    {
        self.core.remove(key)
    }

    /// Rewrite the log so that it holds exactly one set record per
    /// live key, in keydir order.  The set of bindings does not
    /// change.
    pub fn compact(&mut self) -> (r: Result<LogAction, Error>)
        requires
            old(self).wf(),
        ensures
            final(self).wf(),
            final(self).clean(),
            final(self)@ == old(self)@,
            final(self).log_view() == concat_live_records(
                final(self).keydir_entries(),
                old(self)@,
            ),
            final(self).keydir_entries().len() == old(self).keydir_entries().len(),
            match r {
                Ok(a) => a is Rewritten,
                Err(_) => false,
            },
    {
        self.core.compact()
    }
}

/// The invariant the lock maintains for the newer spelling.
pub struct KiwiWf;

impl vstd::rwlock::RwLockPredicate<KiwiStoreInner> for KiwiWf {
    open spec fn inv(self, s: KiwiStoreInner) -> bool {
        s.wf()
    }
}

/// The log-backed engine behind the alternative capability trait.
#[derive(Clone)]
pub struct KiwiStore {
    inner: Arc<RwLock<KiwiStoreInner, KiwiWf>>,
}

impl KiwiStore {
    /// Open a store over the bytes of its log.
    pub fn open(bytes: Vec<u8>) -> (r: Result<KiwiStore, Error>)
        ensures
            r is Ok <==> replay_log(bytes@) is Some,
            r matches Err(e) ==> e is InvalidData,
    {
        match KiwiStoreInner::open(bytes) {
            Ok(inner) => Ok(KiwiStore { inner: Arc::new(RwLock::new(inner, Ghost(KiwiWf))) }),
            Err(e) => Err(e),
        }
    }
}

impl KiwiEngine for KiwiStore {
    /// Bind a key to a value in the shared store; the core's set
    /// cannot fail.
    fn set(&self, key: String, value: String) -> (r: Result<(), Error>)
        ensures
            r is Ok,
    {
        let (mut s, handle) = self.inner.acquire_write();
        let r = s.set(key, value);
        handle.release_write(s);
        match r {
            Ok(_) => Ok(()),
            Err(e) => Err(e),
        }
    }

    /// Read the current value of a key from the shared store; an
    /// absent key is not an error.
    fn get(&self, key: String) -> (r: Result<Option<String>, Error>)
        ensures
            r is Ok,
    {
        let handle = self.inner.acquire_read();
        let r = handle.borrow().get(key);
        handle.release_read();
        r
    }

    /// Retire a key in the shared store; the only failure is the
    /// no-such-key error.
    fn remove(&self, key: String) -> (r: Result<(), Error>)
        ensures
            r matches Err(e) ==> e is NoKey,
    {
        let (mut s, handle) = self.inner.acquire_write();
        let r = s.remove(key);
        handle.release_write(s);
        match r {
            Ok(_) => Ok(()),
            Err(e) => Err(e),
        }
    }
}

/// The embedded-store adapter's inner state, under the newer name.
#[derive(Debug, Clone)]
pub struct SledStoreInner {
    db: sled::Db,
}

impl SledStoreInner {
    /// Bind a key to a value in the embedded store.
    pub fn set(&mut self, key: String, value: String) -> (r: Result<(), Error>)
        ensures
            r matches Err(e) ==> e is Sled,
    {
        match sled_insert(&self.db, &key, &value) {
            Ok(_) => Ok(()),
            Err(error) => Err(sled_error(error)),
        }
    }

    /// Read the value bound to a key, decoding it back to text.
    pub fn get(&self, key: String) -> (r: Result<Option<String>, Error>)
        ensures
            r matches Err(e) ==> e is Sled || e is Utf8Error,
    {
        match sled_get(&self.db, &key) {
            Ok(result) => shape_sled_value(result),
            Err(error) => Err(sled_error(error)),
        }
    }

    /// Drop a key's binding in the embedded store.  When no prior
    /// value existed, the key was absent and the engine contract calls
    /// for the no-such-key error.
    pub fn remove(&mut self, key: String) -> (r: Result<(), Error>)
        ensures
            r matches Err(e) ==> e is Sled || (e matches Error::NoKey(m) && m@
                == "Key not found"@),
    {
        match sled_remove(&self.db, &key) {
            Ok(Some(_)) => Ok(()),
            Ok(None) => Err(Error::NoKey(String::from_str("Key not found"))),
            Err(error) => Err(sled_error(error)),
        }
    }
}

/// Any adapter state may sit in the lock.
pub struct SledStoreAny;

impl vstd::rwlock::RwLockPredicate<SledStoreInner> for SledStoreAny {
    open spec fn inv(self, s: SledStoreInner) -> bool {
        true
    }
}

/// The embedded-store adapter behind the alternative capability
/// trait.
#[derive(Clone)]
pub struct SledStore {
    inner: Arc<RwLock<SledStoreInner, SledStoreAny>>,
}

impl SledStore {
    /// Open the embedded store in a directory.
    pub fn open(path: String) -> (r: Result<SledStore, Error>)
        ensures
            r matches Err(e) ==> e is Sled,
    {
        match sled_open(&path) {
            Ok(db) => Ok(
                SledStore {
                    inner: Arc::new(RwLock::new(SledStoreInner { db }, Ghost(SledStoreAny))),
                },
            ),
            Err(e) => Err(sled_error(e)),
        }
    }
}

impl KiwiEngine for SledStore {
    /// Bind a key to a value in the shared embedded store.
    fn set(&self, key: String, value: String) -> (r: Result<(), Error>)
        ensures
            r matches Err(e) ==> e is Sled,
    {
        let (mut s, handle) = self.inner.acquire_write();
        let r = s.set(key, value);
        handle.release_write(s);
        r
    }

    /// Read the current value of a key from the shared embedded store.
    fn get(&self, key: String) -> (r: Result<Option<String>, Error>)
        ensures
            r matches Err(e) ==> e is Sled || e is Utf8Error,
    {
        let handle = self.inner.acquire_read();
        let r = handle.borrow().get(key);
        handle.release_read();
        r
    }

    /// Retire a key in the shared embedded store; an absent key is the
    /// no-such-key error.
    fn remove(&self, key: String) -> (r: Result<(), Error>)
        ensures
            r matches Err(e) ==> e is Sled || e is NoKey,
    {
        let (mut s, handle) = self.inner.acquire_write();
        let r = s.remove(key);
        handle.release_write(s);
        r
    }
}

} // verus!
