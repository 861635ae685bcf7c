//! The serialized store: thin key/value operations against a shared
//! string store.
//!
//! [`Store`] is the capability the resolution cache runs against. The host
//! program implements it over its shared store; [`MemStore`] is the
//! in-memory reference implementation, which tests also use.

use vstd::prelude::*;
use vstd::hash_map::StringHashMap;
use vstd::string::StringExecFns;

verus! {

/// Failure of the backing store: the connection could not be established
/// or a round trip failed.
#[derive(Clone, Copy, Debug, PartialEq, Eq, Structural)]
pub enum StoreError {
    Unavailable,
}

/// A shared string store with TTL expiry. `model()` is its live contents;
/// the store owns physical expiry and memory reclamation, and any
/// operation may fail with [`StoreError::Unavailable`].
pub trait Store {
    /// The live contents. A verified implementation overrides this with
    /// its real contents; an implementation outside the verifier's view
    /// (a networked store in the host program) leaves the default, since
    /// nothing is proved about it anyway.
    open spec fn model(&self) -> Map<Seq<char>, Seq<char>> {
        Map::empty()
    }

    /// Reads the value under `key`; `Ok(None)` when no live entry holds
    /// it.
    fn get(&self, key: &str) -> (r: Result<Option<String>, StoreError>)
        ensures
            match r {
                Ok(Some(v)) => self.model().contains_key(key@) && v@ == self.model()[key@],
                Ok(None) => !self.model().contains_key(key@),
                Err(_) => true,
            },
    ;

    /// Writes `value` under `key`, overwriting any previous entry. A TTL
    /// of 0 means no expiry.
    fn set(&mut self, key: &str, value: &str, ttl_seconds: u64) -> (r: Result<(), StoreError>)
        ensures
            match r {
                Ok(_) => final (self).model() == old(self).model().insert(key@, value@),
                Err(_) => final (self).model() == old(self).model(),
            },
    ;

    /// Deletes the entry under `key`; deleting a missing key is a no-op,
    /// not an error.
    fn delete(&mut self, key: &str) -> (r: Result<(), StoreError>)
        ensures
            match r {
                Ok(_) => final (self).model() == old(self).model().remove(key@),
                Err(_) => final (self).model() == old(self).model(),
            },
    ;
}

/// An in-memory store: the verified reference implementation of
/// [`Store`]. It never fails and, having no clock, never expires entries.
pub struct MemStore {
    entries: StringHashMap<String>,
}

impl MemStore {
    /// An empty store.
    pub fn new() -> (r: MemStore)
        ensures
            r.model() == Map::<Seq<char>, Seq<char>>::empty(),
    {
        let r = MemStore { entries: StringHashMap::new() };
        proof {
            assert(r.model() =~= Map::<Seq<char>, Seq<char>>::empty());
        }
        r
    }
}

impl Store for MemStore {
    closed spec fn model(&self) -> Map<Seq<char>, Seq<char>> {
        Map::new(
            |k: Seq<char>| self.entries@.contains_key(k),
            |k: Seq<char>| self.entries@[k]@,
        )
    }

    fn get(&self, key: &str) -> (r: Result<Option<String>, StoreError>) {
        match self.entries.get(key) {
            Some(v) => {
                let c = v.clone();
                Ok(Some(c))
            },
            None => Ok(None),
        }
    }

    fn set(&mut self, key: &str, value: &str, ttl_seconds: u64) -> (r: Result<(), StoreError>) {
        let k = String::from_str(key);
        let v = String::from_str(value);
        self.entries.insert(k, v);
        proof {
            assert(self.model() =~= old(self).model().insert(key@, value@));
        }
        Ok(())
    }

    fn delete(&mut self, key: &str) -> (r: Result<(), StoreError>) {
        self.entries.remove(key);
        proof {
            assert(self.model() =~= old(self).model().remove(key@));
        }
        Ok(())
    }
}

} // verus!
