//! The request-serving state: one engine handle per server, and the
//! pure shaping of engine answers into wire replies.  The transport
//! that carries the replies lives outside the library.

use vstd::prelude::*;

use crate::engine::KvsEngine;
use crate::error::Error;

verus! {

/// Shape an engine's get answer as the wire reply: whether the key was
/// found, and its value, or empty text when it was not.
pub fn get_reply(r: Option<String>) -> (p: (bool, String))
    ensures
        match r {
            Some(v) => p.0 && p.1 == v,
            None => !p.0 && p.1@ == Seq::<char>::empty(),
        },
{
    match r {
        Some(v) => (true, v),
        None => (false, String::new()),
    }
}

/// Shape an engine's remove answer as the wire reply: success means
/// the key was found, the no-such-key error reads as not found, and
/// every other failure surfaces unchanged with its kind and message.
pub fn remove_reply(r: Result<(), Error>) -> (p: Result<bool, Error>)
    ensures
        r is Ok ==> (p matches Ok(found) && found),
        r matches Err(e) ==> if e is NoKey {
            p matches Ok(found) && !found
        } else {
            p matches Err(e2) && e2 == e
        },
{
    match r {
        Ok(_) => Ok(true),
        Err(e) => match e {
            Error::NoKey(_) => Ok(false),
            other => Err(other),
        },
    }
}

/// A server's state: the engine its request handlers call.
#[derive(Debug)]
pub struct Kvs<E> where E: KvsEngine {
    engine: E,
}

impl<E> Kvs<E> where E: KvsEngine {
    /// The engine this server state serves.
    pub closed spec fn engine_view(&self) -> E {
        self.engine
    }

    /// Wrap an engine for the serving layer.
    pub fn new(engine: E) -> (r: Kvs<E>)
        ensures
            r.engine_view() == engine,
    {
        Kvs { engine }
    }

    /// Serve a set request.
    pub fn set(&self, key: String, value: String) -> Result<(), Error> {
        self.engine.set(key, value)
    }

    /// Serve a get request, shaping the answer as the wire reply: a
    /// not-found reply carries empty text.
    pub fn get(&self, key: String) -> (r: Result<(bool, String), Error>)
        ensures
            r matches Ok(p) ==> (!p.0 ==> p.1@ == Seq::<char>::empty()),
    {
        match self.engine.get(key) {
            Ok(found) => Ok(get_reply(found)),
            Err(e) => Err(e),
        }
    }

    /// Serve a remove request, shaping the answer as the wire reply:
    /// only the no-such-key error reads as not found; other failures
    /// surface.
    pub fn remove(&self, key: String) -> (r: Result<bool, Error>)
        ensures
            r matches Err(e) ==> !(e is NoKey),
    {
        remove_reply(self.engine.remove(key))
    }
}

} // verus!
