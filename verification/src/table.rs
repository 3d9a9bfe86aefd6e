//! The branch history table: a sparse map from slot index to counter, in
//! which a slot that was never touched reads as a fresh counter.

use crate::bits::lemma_one_shl;
use crate::counter::{predicts_taken, trained, Counter, DEFAULT_COUNTER};
use std::collections::HashMap;
use vstd::arithmetic::power2::pow2;
use vstd::prelude::*;

verus! {

/// The counter value that slot `index` of a table stands for: the stored one,
/// or the default where none is stored.
pub open spec fn counter_at(table: Map<usize, nat>, index: usize) -> nat {
    if table.contains_key(index) {
        table[index]
    } else {
        DEFAULT_COUNTER as nat
    }
}

/// The table after the branch that maps to slot `index` has been seen with
/// outcome `taken`: that slot holds its trained counter, every other slot is
/// as before.
pub open spec fn table_after(table: Map<usize, nat>, index: usize, taken: bool) -> Map<usize, nat> {
    table.insert(index, trained(counter_at(table, index), taken))
}

/// Maps slot indices to saturating counters. Only slots that were looked up
/// or stored are held; its view is the map from those slots to their values.
pub struct BranchHistoryTable {
    slots: HashMap<usize, Counter>,
}

impl View for BranchHistoryTable {
    type V = Map<usize, nat>;

    closed spec fn view(&self) -> Map<usize, nat> {
        Map::new(|i: usize| self.slots@.contains_key(i), |i: usize| self.slots@[i]@)
    }
}

impl BranchHistoryTable {
    /// An empty table: every slot reads as the default counter.
    pub fn new() -> (table: BranchHistoryTable)
        ensures
            table@ == Map::<usize, nat>::empty(),
    {
        let table = BranchHistoryTable { slots: HashMap::new() };
        assert(table@ =~= Map::<usize, nat>::empty());
        table
    }

    /// The counter that slot `index` stands for, without touching the table.
    pub fn counter_at(&self, index: usize) -> (counter: Counter)
        ensures
            counter@ == counter_at(self@, index),
            counter@ <= 3,
    {
        broadcast use vstd::std_specs::hash::group_hash_axioms;

        let counter = match self.slots.get(&index) {
            Some(found) => *found,
            None => Counter::new(),
        };
        proof {
            use_type_invariant(&counter);
        }
        counter
    }

    /// Looks slot `index` up. A slot that is absent is first filled with a
    /// fresh counter. Returns the slot's counter and whether it was present.
    pub fn lookup_or_default(&mut self, index: usize) -> (found: (Counter, bool))
        ensures
            found.1 == old(self)@.contains_key(index),
            found.0@ == counter_at(old(self)@, index),
            found.0@ <= 3,
            final(self)@ == old(self)@.insert(index, counter_at(old(self)@, index)),
    {
        broadcast use vstd::std_specs::hash::group_hash_axioms;

        let (counter, present) = match self.slots.get(&index) {
            Some(found) => (*found, true),
            None => (Counter::new(), false),
        };
        if !present {
            self.slots.insert(index, counter);
        }
        proof {
            use_type_invariant(&counter);
        }
        assert(self@ =~= old(self)@.insert(index, counter_at(old(self)@, index)));
        (counter, present)
    }

    /// Puts `counter` into slot `index`, over whatever the slot held.
    pub fn store(&mut self, index: usize, counter: Counter)
        ensures
            final(self)@ == old(self)@.insert(index, counter@),
    {
        broadcast use vstd::std_specs::hash::group_hash_axioms;

        self.slots.insert(index, counter);
        assert(self@ =~= old(self)@.insert(index, counter@));
    }

    /// One prediction against slot `index`: reads the slot's counter, takes
    /// its prediction, trains the counter on the actual outcome and stores it
    /// back. Returns the outcome that was predicted.
    pub fn train(&mut self, index: usize, taken: bool) -> (predicted: bool)
        ensures
            predicted == predicts_taken(counter_at(old(self)@, index)),
            final(self)@ == table_after(old(self)@, index, taken),
    {
        let (mut counter, _) = self.lookup_or_default(index);
        let predicted = counter.predicted_outcome();
        counter.train(taken);
        self.store(index, counter);
        assert(self@ =~= table_after(old(self)@, index, taken));
        predicted
    }

    /// Every slot of a table of `2^bits` slots in ascending order, each with
    /// the counter it stands for. Slots that were never touched are listed
    /// with the default counter and stay absent from the table.
    pub fn iterate_all(&self, bits: usize) -> (all: Vec<(usize, Counter)>)
        requires
            bits < usize::BITS,
        ensures
            all@.len() == pow2(bits as nat),
            forall|i: int|
                0 <= i < all@.len() ==> (#[trigger] all@[i]).0 == i && all@[i].1@ == counter_at(
                    self@,
                    i as usize,
                ),
    {
        let size: usize = 1usize << bits;
        proof {
            lemma_one_shl(bits);
        }
        let mut all: Vec<(usize, Counter)> = Vec::new();
        let mut index: usize = 0;
        while index < size
            invariant
                index <= size,
                all@.len() == index,
                forall|i: int|
                    0 <= i < all@.len() ==> (#[trigger] all@[i]).0 == i && all@[i].1@
                        == counter_at(self@, i as usize),
            decreases size - index,
        {
            let counter = self.counter_at(index);
            all.push((index, counter));
            index = index + 1;
        }
        all
    }
}

} // verus!
