//! The transposition table: a cache from position hashes to search results.

use std::collections::HashMap;
use vstd::prelude::*;

verus! {

broadcast use vstd::std_specs::hash::group_hash_axioms;

/// How a cached score relates to the true value of its position.
#[derive(Clone, Copy, PartialEq, Eq, Structural, Debug)]
pub enum Bound {
    /// The score is the value of the position.
    Exact,
    /// The value is at least the score: the search failed high.
    LowerBound,
    /// The value is at most the score: the search failed low.
    UpperBound,
}

/// One cached search result.
#[derive(Clone, Copy, Debug)]
pub struct TTEntry {
    pub score: i32,
    /// The depth to which the position was searched to get `score`.
    pub depth: u8,
    pub bound: Bound,
}

/// A cache with at most one entry per hash. A write replaces whatever the
/// hash held before, whether or not the older entry was searched deeper.
pub struct CustomTT {
    pub table: HashMap<u64, TTEntry>,
}

impl View for CustomTT {
    type V = Map<u64, TTEntry>;

    open spec fn view(&self) -> Map<u64, TTEntry> {
        self.table@
    }
}

/// Whether `entry` answers a search of `depth` plies with the window
/// (`alpha`, `beta`).
pub open spec fn entry_usable(entry: TTEntry, depth: u8, alpha: i32, beta: i32) -> bool {
    entry.depth >= depth && match entry.bound {
        Bound::Exact => true,
        Bound::LowerBound => entry.score >= beta,
        Bound::UpperBound => entry.score <= alpha,
    }
}

/// What a probe of `table` returns.
pub open spec fn probe_spec(
    table: Map<u64, TTEntry>,
    hash: u64,
    depth: u8,
    alpha: i32,
    beta: i32,
) -> Option<i32> {
    if table.contains_key(hash) && entry_usable(table[hash], depth, alpha, beta) {
        Some(table[hash].score)
    } else {
        None
    }
}

impl CustomTT {
    pub fn new() -> (tt: Self)
        ensures
            tt@ == Map::<u64, TTEntry>::empty(),
    {
        CustomTT { table: HashMap::new() }
    }

    /// Looks `hash` up. The table itself is left as it was.
    pub fn probe(&mut self, hash: u64, depth: u8, alpha: i32, beta: i32) -> (hit: Option<i32>)
        ensures
            hit == probe_spec(old(self)@, hash, depth, alpha, beta),
            final(self)@ == old(self)@,
    {
        match self.table.get(&hash) {
            Some(entry) => {
                if entry.depth >= depth {
                    match entry.bound {
                        Bound::Exact => Some(entry.score),
                        Bound::LowerBound => if entry.score >= beta {
                            Some(entry.score)
                        } else {
                            None
                        },
                        Bound::UpperBound => if entry.score <= alpha {
                            Some(entry.score)
                        } else {
                            None
                        },
                    }
                } else {
                    None
                }
            },
            None => None,
        }
    }

    /// Records a result for `hash`, replacing any earlier one.
    pub fn store(&mut self, hash: u64, depth: u8, score: i32, bound: Bound)
        ensures
            final(self)@ == old(self)@.insert(hash, TTEntry { score, depth, bound }),
    {
        self.table.insert(hash, TTEntry { score, depth, bound });
    }
}

/// A probe right after an `Exact` store of the same hash, asking for the
/// stored depth or a shallower one, returns the stored score, whatever the
/// window is.
pub proof fn lemma_probe_after_exact_store(
    table: Map<u64, TTEntry>,
    hash: u64,
    stored_depth: u8,
    score: i32,
    depth: u8,
    alpha: i32,
    beta: i32,
)
    requires
        depth <= stored_depth,
    ensures
        probe_spec(
            table.insert(hash, TTEntry { score, depth: stored_depth, bound: Bound::Exact }),
            hash,
            depth,
            alpha,
            beta,
        ) == Some(score),
{
}

} // verus!
