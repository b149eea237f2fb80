//! The engine contract and the log-backed engine facade: a shareable,
//! cloneable handle over the store core behind one reader-writer lock.
//! All clones alias the same underlying state; every operation holds
//! the lock for the full duration of the store-core call, so the
//! operations on one store are linearizable.

use vstd::prelude::*;
use vstd::rwlock::RwLock;

use std::sync::Arc;

use crate::error::Error;
use crate::log::replay_log;
use crate::store::KvStoreInner;

verus! {

/// The capability set every engine offers: set, get and remove.  The
/// per-value guarantees of each operation are stated on the store core
/// that an engine guards; an engine call returns the core's answer for
/// the state the lock observed.
pub trait KvsEngine: Clone + Send + 'static {
    fn set(&self, key: String, value: String) -> Result<(), Error>;

    fn get(&self, key: String) -> Result<Option<String>, Error>;

    fn remove(&self, key: String) -> Result<(), Error>;
}

/// The invariant the lock maintains: the guarded store core is well
/// formed.  Every value of this predicate type denotes the same
/// invariant, so any handle on the lock knows it.
pub struct StoreWf;

impl vstd::rwlock::RwLockPredicate<KvStoreInner> for StoreWf {
    open spec fn inv(self, s: KvStoreInner) -> bool {
        s.wf()
    }
}

/// The log-backed key-value engine: a cheaply cloneable handle whose
/// clones all reference one store core.
#[derive(Clone)]
pub struct KvStore {
    inner: Arc<RwLock<KvStoreInner, StoreWf>>,
}

impl KvStore {
    /// Open a store over the bytes of its log, replaying them to
    /// rebuild the keydir.
    pub fn open(bytes: Vec<u8>) -> (r: Result<KvStore, Error>)
        ensures
            r is Ok <==> replay_log(bytes@) is Some,
            r matches Err(e) ==> e is InvalidData,
    {
        match KvStoreInner::open(bytes) {
            Ok(inner) => {
                let lock = RwLock::new(inner, Ghost(StoreWf));
                Ok(KvStore { inner: Arc::new(lock) })
            },
            Err(e) => Err(e),
        }
    }

    /// A snapshot of the log bytes, taken under the read lock.
    pub fn log_bytes(&self) -> Vec<u8> {
        let handle = self.inner.acquire_read();
        let r = handle.borrow().log_bytes();
        handle.release_read();
        r
    }
}

impl KvsEngine for KvStore {
    /// Bind a key to a value in the shared store; the core's set
    /// cannot fail.
    fn set(&self, key: String, value: String) -> (r: Result<(), Error>)
        ensures
            r is Ok,
    {
        let (mut s, handle) = self.inner.acquire_write();
        let r = s.set(key, value);
        handle.release_write(s);
        match r {
            Ok(_) => Ok(()),
            Err(e) => Err(e),
        }
    }

    /// Read the current value of a key from the shared store; an
    /// absent key is not an error.
    fn get(&self, key: String) -> (r: Result<Option<String>, Error>)
        ensures
            r is Ok,
    {
        let handle = self.inner.acquire_read();
        let r = handle.borrow().get(key);
        handle.release_read();
        r
    }

    /// Retire a key in the shared store; the only failure is the
    /// no-such-key error.
    fn remove(&self, key: String) -> (r: Result<(), Error>)
        ensures
            r matches Err(e) ==> e is NoKey,
    {
        let (mut s, handle) = self.inner.acquire_write();
        let r = s.remove(key);
        handle.release_write(s);
        match r {
            Ok(_) => Ok(()),
            Err(e) => Err(e),
        }
    }
}

} // verus!
