use crate::database::Database;
use crate::tree::rb_tree::RbTree;
use vstd::prelude::*;

verus! {

/// The store: every record sits in one ordered index in memory.
pub struct BrunoDb {
    pub index: RbTree,
}

impl BrunoDb {
    /// A store without records.
    pub fn new() -> (db: BrunoDb)
        ensures
            db.valid(),
            db.records() == Map::<u64, Seq<char>>::empty(),
    {
        BrunoDb { index: RbTree::new() }
    }
}

impl Default for BrunoDb {
    /// A store without records.
    fn default() -> (db: BrunoDb)
        ensures
            db.valid(),
            db.records() == Map::<u64, Seq<char>>::empty(),
    {
        BrunoDb::new()
    }
}

impl Database for BrunoDb {
    open spec fn records(&self) -> Map<u64, Seq<char>> {
        self.index@
    }

    open spec fn valid(&self) -> bool {
        self.index.wf()
    }

    fn put_record(&mut self, key: u64, record: String) {
        self.index.insert(key, record);
    }
}

} // verus!
