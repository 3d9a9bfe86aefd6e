//! The two-bit saturating counter that every table slot holds.

use vstd::prelude::*;

verus! {

/// Value of a counter that was never trained: weakly taken.
pub const DEFAULT_COUNTER: u8 = 2;

/// Largest counter value: strongly taken.
pub const MAX_COUNTER: u8 = 3;

/// The counter value after one increment: one more, held at 3.
pub open spec fn incremented(value: nat) -> nat {
    if value < 3 {
        value + 1
    } else {
        value
    }
}

/// The counter value after one decrement: one less, held at 0.
pub open spec fn decremented(value: nat) -> nat {
    if value > 0 {
        (value - 1) as nat
    } else {
        value
    }
}

/// The outcome a counter value predicts: taken for 2 and 3, not taken for 0 and 1.
pub open spec fn predicts_taken(value: nat) -> bool {
    value >= 2
}

/// The counter value after it has seen one branch outcome.
pub open spec fn trained(value: nat, taken: bool) -> nat {
    if taken {
        incremented(value)
    } else {
        decremented(value)
    }
}

/// Training keeps a counter value within `0..=3`.
pub proof fn lemma_trained_in_range(value: nat, taken: bool)
    requires
        value <= 3,
    ensures
        trained(value, taken) <= 3,
        incremented(value) <= 3,
        decremented(value) <= 3,
{
}

/// Below the top an increment is undone by a decrement, and above the bottom
/// a decrement is undone by an increment. Saturation loses a step only at the
/// bound that is approached: from 3, up and down again ends at 2; from 0,
/// down and up again ends at 1.
pub proof fn lemma_round_trip(value: nat)
    requires
        value <= 3,
    ensures
        value < 3 ==> decremented(incremented(value)) == value,
        value == 3 ==> decremented(incremented(value)) == 2,
        value > 0 ==> incremented(decremented(value)) == value,
        value == 0 ==> incremented(decremented(value)) == 1,
{
}

/// A two-bit saturating counter. Its value never leaves `0..=3`.
#[derive(Clone, Copy, Debug)]
pub struct Counter(u8);

impl View for Counter {
    type V = nat;

    closed spec fn view(&self) -> nat {
        self.0 as nat
    }
}

impl Counter {
    /// Holds of every counter there is: the value is one of 0, 1, 2, 3.
    #[verifier::type_invariant]
    pub open spec fn in_range(self) -> bool {
        self@ <= MAX_COUNTER
    }

    /// A fresh counter, weakly taken.
    pub fn new() -> (c: Counter)
        ensures
            c@ == DEFAULT_COUNTER,
    {
        Counter(DEFAULT_COUNTER)
    }

    /// The counter's value, always within `0..=3`.
    pub fn value(&self) -> (v: u8)
        ensures
            v == self@,
            v <= MAX_COUNTER,
    {
        proof {
            use_type_invariant(self);
        }
        self.0
    }

    /// Moves one step towards strongly taken; a no-op at 3.
    pub fn increment(&mut self)
        ensures
            final(self)@ == incremented(old(self)@),
    {
        proof {
            use_type_invariant(&*self);
        }
        if self.0 < MAX_COUNTER {
            self.0 = self.0 + 1;
        }
    }

    /// Moves one step towards strongly not taken; a no-op at 0.
    pub fn decrement(&mut self)
        ensures
            final(self)@ == decremented(old(self)@),
    {
        proof {
            use_type_invariant(&*self);
        }
        if self.0 > 0 {
            self.0 = self.0 - 1;
        }
    }

    /// The outcome this counter predicts: taken exactly when its value is at least 2.
    pub fn predicted_outcome(&self) -> (taken: bool)
        ensures
            taken == predicts_taken(self@),
    {
        self.0 >= 2
    }

    /// Trains the counter on one outcome: up when taken, down when not.
    pub fn train(&mut self, taken: bool)
        ensures
            final(self)@ == trained(old(self)@, taken),
    {
        if taken {
            self.increment();
        } else {
            self.decrement();
        }
    }
}

} // verus!
