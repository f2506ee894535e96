//! The storage engine that sits on top of the ordered index.

pub mod bruno_db;

use vstd::prelude::*;

verus! {

/// A store of text records under 64-bit keys.
pub trait Database {
    /// The records that the store holds.
    spec fn records(&self) -> Map<u64, Seq<char>>;

    /// The store is in a state that its operations keep.
    spec fn valid(&self) -> bool;

    /// Stores `record` under `key`, in place of what was there.
    fn put_record(&mut self, key: u64, record: String)
        requires
            old(self).valid(),
        ensures
            final(self).valid(),
            final(self).records() == old(self).records().insert(key, record@),
    ;
}

} // verus!
