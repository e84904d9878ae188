use std::collections::HashMap;
use vstd::prelude::*;
use crate::moves::Move;
use crate::position::Position;

verus! {

/// What a stored score says of the true one.
#[derive(Clone, Copy, Debug, PartialEq, Eq, Structural)]
pub enum Bound {
    /// The score is the true one.
    Exact,
    /// The true score is at least the stored one.
    Lower,
    /// The true score is at most the stored one.
    Upper,
}

/// What the search remembers of a position.
#[derive(Clone, Copy, Debug)]
pub struct TableEntry {
    pub depth: usize,
    pub score: i32,
    pub bound: Bound,
    pub best_move: Option<Move>,
}

/// The positions that a search has seen, by their key.
pub struct TranspositionTable {
    map: HashMap<u64, TableEntry>,
}

impl View for TranspositionTable {
    type V = Map<u64, TableEntry>;

    closed spec fn view(&self) -> Map<u64, TableEntry> {
        self.map@
    }
}

/// The table after an entry was offered to it: the entry is stored unless
/// the table holds one of greater depth for the key.
pub open spec fn after_store(table: Map<u64, TableEntry>, hash: u64, entry: TableEntry) -> Map<
    u64,
    TableEntry,
> {
    if table.contains_key(hash) && entry.depth < table[hash].depth {
        table
    } else {
        table.insert(hash, entry)
    }
}

impl TranspositionTable {
    pub fn new() -> (t: TranspositionTable)
        ensures
            t@ == Map::<u64, TableEntry>::empty(),
    {
        TranspositionTable { map: HashMap::new() }
    }

    pub fn clear(&mut self)
        ensures
            final(self)@ == Map::<u64, TableEntry>::empty(),
    {
        self.map.clear();
    }

    /// Offers an entry for a key: it replaces the stored one unless that
    /// one is of greater depth.
    pub fn store(&mut self, hash: u64, entry: TableEntry)
        ensures
            final(self)@ == after_store(old(self)@, hash, entry),
    {
        broadcast use vstd::std_specs::hash::group_hash_axioms;

        let replace = match self.map.get(&hash) {
            Some(stored) => entry.depth >= stored.depth,
            None => true,
        };
        if replace {
            self.map.insert(hash, entry);
        }
    }

    /// The entry stored for a key, if there is one.
    pub fn probe(&self, hash: u64) -> (r: Option<&TableEntry>)
        ensures
            r is Some <==> self@.contains_key(hash),
            r is Some ==> *r->0 == self@[hash],
    {
        broadcast use vstd::std_specs::hash::group_hash_axioms;

        self.map.get(&hash)
    }
}

impl Default for TranspositionTable {
    fn default() -> (t: TranspositionTable)
        ensures
            t@ == Map::<u64, TableEntry>::empty(),
    {
        TranspositionTable::new()
    }
}

/// The key under which a position is stored.
pub fn compute_hash(position: &Position) -> (key: u64)
    ensures
        key == position.key(),
{
    position.zobrist_key()
}

} // verus!
