//! The bimodal predictor: the slot of a branch is a field of its address.

use crate::bits::{extract_bits, lemma_extract_bits_bound, spec_extract_bits};
use crate::predictor::{CoreState, Predictor, PredictorCore};
use crate::report::{decimal_digits, decimal_text};
use crate::table::{counter_at, BranchHistoryTable};
use vstd::arithmetic::power2::pow2;
use vstd::prelude::*;

verus! {

/// The slot of a branch at `pc` in a bimodal table of `2^m` slots: the two
/// low bits of the address say nothing and are dropped, the next `m` bits are
/// the index.
pub open spec fn spec_bimodal_index(pc: usize, m: nat) -> usize {
    spec_extract_bits(pc, 2, m)
}

/// Computes the bimodal slot of a branch at `pc`.
pub fn bimodal_index(pc: usize, m: usize) -> (index: usize)
    ensures
        index == spec_bimodal_index(pc, m as nat),
        index < pow2(m as nat),
{
    extract_bits(pc, 2, m)
}

/// The state of a bimodal predictor as a value.
pub struct BimodalState {
    /// The number of address bits that index the table.
    pub m: nat,
    /// The table and the totals.
    pub core: CoreState,
}

impl BimodalState {
    /// The state of a new predictor.
    pub open spec fn init(m: nat) -> BimodalState {
        BimodalState { m, core: CoreState::empty() }
    }

    /// What holds of every state that a predictor reaches.
    pub open spec fn wf(self) -> bool {
        &&& self.m + 2 <= usize::BITS
        &&& self.core.wf(self.m)
    }

    /// The slot from which a branch at `pc` is predicted.
    pub open spec fn index(self, pc: usize) -> usize {
        spec_bimodal_index(pc, self.m)
    }

    /// The state after the branch at `pc` was predicted and turned out `taken`.
    pub open spec fn step(self, pc: usize, taken: bool) -> BimodalState {
        BimodalState { m: self.m, core: self.core.record(self.index(pc), taken) }
    }

    /// The state after a sequence of branches, each given by its address and
    /// its outcome, was predicted in order.
    pub open spec fn run(self, events: Seq<(usize, bool)>) -> BimodalState
        decreases events.len(),
    {
        if events.len() == 0 {
            self
        } else {
            self.run(events.drop_last()).step(events.last().0, events.last().1)
        }
    }

    /// A new predictor is well formed.
    pub proof fn lemma_init_wf(m: nat)
        requires
            m + 2 <= usize::BITS,
        ensures
            Self::init(m).wf(),
    {
    }

    /// One prediction keeps the state well formed and the configuration as it
    /// is, and counts exactly one prediction and at most one misprediction.
    pub proof fn lemma_step(self, pc: usize, taken: bool)
        requires
            self.wf(),
        ensures
            self.step(pc, taken).wf(),
            self.step(pc, taken).m == self.m,
            self.step(pc, taken).core.num == self.core.num + 1,
            self.core.error <= self.step(pc, taken).core.error <= self.core.error + 1,
    {
        lemma_extract_bits_bound(pc, 2, self.m);
        self.core.lemma_record(self.m, self.index(pc), taken);
    }

    /// After any sequence of predictions the state is well formed, the
    /// configuration is unchanged, the number of predictions has grown by
    /// exactly the length of the sequence, and there are no more
    /// mispredictions than predictions.
    pub proof fn lemma_run(self, events: Seq<(usize, bool)>)
        requires
            self.wf(),
        ensures
            self.run(events).wf(),
            self.run(events).m == self.m,
            self.run(events).core.num == self.core.num + events.len(),
            self.run(events).core.error <= self.run(events).core.num,
        decreases events.len(),
    {
        if events.len() > 0 {
            self.lemma_run(events.drop_last());
            self.run(events.drop_last()).lemma_step(events.last().0, events.last().1);
        }
    }

    /// A new predictor that has predicted `k` branches has made exactly `k`
    /// predictions.
    pub proof fn lemma_counts_every_prediction(m: nat, events: Seq<(usize, bool)>)
        requires
            m + 2 <= usize::BITS,
        ensures
            Self::init(m).run(events).core.num == events.len(),
    {
        Self::init(m).lemma_run(events);
    }

    /// The slot of an address depends on the address and on `m` alone: it is
    /// the same before and after any sequence of predictions, whatever their
    /// outcomes, and the same in any two predictors with one `m`.
    pub proof fn lemma_index_is_stable(
        self,
        other: BimodalState,
        events: Seq<(usize, bool)>,
        pc: usize,
    )
        requires
            self.wf(),
            other.m == self.m,
        ensures
            self.run(events).index(pc) == self.index(pc),
            other.index(pc) == self.index(pc),
    {
        self.lemma_run(events);
    }

    /// Two predictions for one address go to one slot: after both, every other
    /// slot of the table is as it was before the first.
    pub proof fn lemma_same_pc_same_slot(self, pc: usize, first: bool, second: bool, slot: usize)
        requires
            self.wf(),
            slot != self.index(pc),
        ensures
            self.step(pc, first).index(pc) == self.index(pc),
            self.step(pc, first).step(pc, second).core.table.contains_key(slot)
                == self.core.table.contains_key(slot),
            counter_at(self.step(pc, first).step(pc, second).core.table, slot) == counter_at(
                self.core.table,
                slot,
            ),
    {
    }
}

/// A bimodal branch predictor over a table of `2^m` slots.
pub struct BimodalBranchPredictor {
    /// The number of address bits that index the table.
    m: usize,
    /// The table and the totals.
    core: PredictorCore,
}

impl View for BimodalBranchPredictor {
    type V = BimodalState;

    closed spec fn view(&self) -> BimodalState {
        BimodalState { m: self.m as nat, core: self.core@ }
    }
}

/// The command section of a bimodal report.
pub open spec fn bimodal_command(m: nat, trace: Seq<char>) -> Seq<char> {
    "COMMAND\n"@ + "./sim bimodal "@ + decimal_digits(m) + " 0 0 "@ + trace + "\n"@
}

impl BimodalBranchPredictor {
    /// Holds of every predictor there is: its state is well formed.
    #[verifier::type_invariant]
    pub open spec fn inv(self) -> bool {
        self@.wf()
    }

    /// A predictor with `m` index bits, an empty table and both totals 0.
    /// The index bits have to lie inside an address above its two low bits.
    pub fn new(m: usize) -> (predictor: Self)
        requires
            m + 2 <= usize::BITS,
        ensures
            predictor@ == BimodalState::init(m as nat),
    {
        BimodalBranchPredictor { m, core: PredictorCore::new() }
    }
}

impl Predictor for BimodalBranchPredictor {
    open spec fn spec_bits(&self) -> nat {
        self@.m
    }

    open spec fn core_state(&self) -> CoreState {
        self@.core
    }

    open spec fn spec_index(&self, pc: usize) -> usize {
        self@.index(pc)
    }

    open spec fn command_section(&self, trace: Seq<char>) -> Seq<char> {
        bimodal_command(self@.m, trace)
    }

    open spec fn contents_heading(&self) -> Seq<char> {
        "FINAL BIMODAL CONTENTS\n"@
    }

    fn index(&self, pc: usize) -> (index: usize) {
        bimodal_index(pc, self.m)
    }

    fn predict(&mut self, pc: usize, is_jump: bool)
        ensures
            final(self)@ == old(self)@.step(pc, is_jump),
    {
        proof {
            use_type_invariant(&*self);
            self@.lemma_step(pc, is_jump);
        }
        let index = bimodal_index(pc, self.m);
        // The core is swapped out for the call: the predictor has to be whole
        // whenever a call on one of its parts could unwind.
        let mut core = PredictorCore::new();
        core::mem::swap(&mut self.core, &mut core);
        core.record(index, is_jump);
        self.core = core;
    }

    fn num(&self) -> (num: usize) {
        self.core.num()
    }

    fn error(&self) -> (error: usize) {
        proof {
            use_type_invariant(self);
        }
        self.core.error()
    }

    fn bht(&self) -> (table: &BranchHistoryTable) {
        self.core.bht()
    }

    fn bits(&self) -> (bits: usize) {
        proof {
            use_type_invariant(self);
        }
        self.m
    }

    fn output_command(&self, trace: String) -> (text: String) {
        let mut text = String::from_str("COMMAND\n");
        text.append("./sim bimodal ");
        text.append(decimal_text(self.m).as_str());
        text.append(" 0 0 ");
        text.append(trace.as_str());
        text.append("\n");
        text
    }

    fn output_format(&self) -> (text: String) {
        String::from_str("FINAL BIMODAL CONTENTS\n")
    }
}

} // verus!
