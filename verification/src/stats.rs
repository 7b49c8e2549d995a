//! Search instrumentation: counters for transposition-table behaviour and
//! the metadata that describes a configured searcher. Writing statistics
//! out is left to the program around the library.

use vstd::prelude::*;

verus! {

/// Counters for how the transposition table behaved during a search.
#[derive(Clone, Copy, Debug)]
pub struct TranspositionTableStats {
    pub collisions: u64,
    pub colisionless_insertions: u64,
    pub hits: u64,
}

impl TranspositionTableStats {
    pub fn new() -> (r: TranspositionTableStats)
        ensures
            r.collisions == 0,
            r.colisionless_insertions == 0,
            r.hits == 0,
    {
        TranspositionTableStats { colisionless_insertions: 0, collisions: 0, hits: 0 }
    }

    /// Records an insert that overwrote an occupied slot.
    pub fn collision(&mut self)
        ensures
            final(self).collisions == (if old(self).collisions < u64::MAX {
                old(self).collisions + 1
            } else {
                old(self).collisions as int
            }),
            final(self).colisionless_insertions == old(self).colisionless_insertions,
            final(self).hits == old(self).hits,
    {
        if self.collisions < u64::MAX {
            self.collisions = self.collisions + 1;
        }
    }

    /// Records a probe answered from the table.
    pub fn hit(&mut self)
        ensures
            final(self).hits == (if old(self).hits < u64::MAX {
                old(self).hits + 1
            } else {
                old(self).hits as int
            }),
            final(self).collisions == old(self).collisions,
            final(self).colisionless_insertions == old(self).colisionless_insertions,
    {
        if self.hits < u64::MAX {
            self.hits = self.hits + 1;
        }
    }

    /// Records an insert into a previously empty slot.
    pub fn colisionless_insert(&mut self)
        ensures
            final(self).colisionless_insertions == (if old(self).colisionless_insertions
                < u64::MAX {
                old(self).colisionless_insertions + 1
            } else {
                old(self).colisionless_insertions as int
            }),
            final(self).collisions == old(self).collisions,
            final(self).hits == old(self).hits,
    {
        if self.colisionless_insertions < u64::MAX {
            self.colisionless_insertions = self.colisionless_insertions + 1;
        }
    }
}

/// What a configured searcher is: its algorithm's name, its fixed search
/// depth if it has one, and its transposition table's capacity if it
/// carries one.
#[derive(Clone, Copy, Debug)]
pub struct Metadata {
    pub algorithm_name: &'static str,
    pub search_depth: Option<u64>,
    pub transposition_table_size: Option<u64>,
}

} // verus!
