use vstd::prelude::*;

use std::collections::HashMap;

verus! {

broadcast use vstd::std_specs::hash::group_hash_axioms;

/// The word that `m` holds at `key`; a key never written holds 0.
pub open spec fn word_at(m: Map<u64, u64>, key: u64) -> u64 {
    if m.contains_key(key) {
        m[key]
    } else {
        0
    }
}

/// A table of per-object words kept beside the heap, one per object
/// address. Words never written read as 0.
pub struct WordTable {
    pub words: HashMap<u64, u64>,
}

impl WordTable {
    pub open spec fn view(&self) -> Map<u64, u64> {
        self.words@
    }

    pub open spec fn at(&self, key: u64) -> u64 {
        word_at(self.words@, key)
    }

    pub fn new() -> (r: WordTable)
        ensures
            r.view() == Map::<u64, u64>::empty(),
    {
        WordTable { words: HashMap::new() }
    }

    pub fn read(&self, key: u64) -> (r: u64)
        ensures
            r == self.at(key),
    {
        match self.words.get(&key) {
            Some(v) => *v,
            None => 0,
        }
    }

    pub fn write(&mut self, key: u64, value: u64)
        ensures
            final(self).view() == old(self).view().insert(key, value),
    {
        self.words.insert(key, value);
    }
}

} // verus!
