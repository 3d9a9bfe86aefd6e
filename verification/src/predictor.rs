//! What the two predictors share: the core that every prediction updates,
//! the contract of one prediction, and the report.

use crate::counter::predicts_taken;
use crate::report::{contents_text, report, statistics_text};
use crate::table::{counter_at, table_after, BranchHistoryTable};
use vstd::arithmetic::power2::pow2;
use vstd::prelude::*;

verus! {

/// The part of a predictor's state that every variant has: the counter table
/// and the two totals.
pub struct CoreState {
    /// The counters that were touched so far, by slot.
    pub table: Map<usize, nat>,
    /// How many branches were predicted.
    pub num: nat,
    /// How many of them were mispredicted.
    pub error: nat,
}

impl CoreState {
    /// Before the first prediction: no slot touched, both totals 0.
    pub open spec fn empty() -> CoreState {
        CoreState { table: Map::empty(), num: 0, error: 0 }
    }

    /// Whether a branch that maps to slot `index` and turns out `taken` is
    /// mispredicted: the slot's counter predicts the other outcome.
    pub open spec fn mispredicts(self, index: usize, taken: bool) -> bool {
        predicts_taken(counter_at(self.table, index)) != taken
    }

    /// The state after one prediction from slot `index` whose actual outcome
    /// is `taken`: one more prediction, one more misprediction if the slot's
    /// counter predicted the other outcome, and the slot's counter trained.
    pub open spec fn record(self, index: usize, taken: bool) -> CoreState {
        CoreState {
            table: table_after(self.table, index, taken),
            num: self.num + 1,
            error: if self.mispredicts(index, taken) {
                self.error + 1
            } else {
                self.error
            },
        }
    }

    /// What holds of the core of a predictor over `2^bits` slots: no more
    /// mispredictions than predictions, every touched slot inside the table,
    /// every counter within `0..=3`.
    pub open spec fn wf(self, bits: nat) -> bool {
        &&& self.error <= self.num
        &&& forall|i: usize| #[trigger]
            self.table.contains_key(i) ==> i < pow2(bits) && self.table[i] <= 3
    }

    /// One prediction from a slot inside the table keeps the state well
    /// formed, adds exactly one prediction and at most one misprediction.
    pub proof fn lemma_record(self, bits: nat, index: usize, taken: bool)
        requires
            self.wf(bits),
            index < pow2(bits),
        ensures
            self.record(index, taken).wf(bits),
            self.record(index, taken).num == self.num + 1,
            self.error <= self.record(index, taken).error <= self.error + 1,
    {
    }
}

/// The core that both predictors run on: the counter table and the two
/// totals, with the one step that a prediction makes on them. A predictor
/// adds the choice of the slot.
pub struct PredictorCore {
    /// The counter table.
    bht: BranchHistoryTable,
    /// The number of predictions made.
    num: usize,
    /// The number of mispredictions among them.
    error: usize,
}

impl View for PredictorCore {
    type V = CoreState;

    closed spec fn view(&self) -> CoreState {
        CoreState { table: self.bht@, num: self.num as nat, error: self.error as nat }
    }
}

impl PredictorCore {
    /// A core with an empty table and both totals 0.
    pub fn new() -> (core: PredictorCore)
        ensures
            core@ == CoreState::empty(),
    {
        PredictorCore { bht: BranchHistoryTable::new(), num: 0, error: 0 }
    }

    /// One prediction from slot `index` for a branch whose actual outcome is
    /// `taken`: reads the slot's counter, with the default if the slot is
    /// new, takes its prediction, counts the prediction and, if it is wrong,
    /// the misprediction, trains the counter on the outcome and stores it.
    pub fn record(&mut self, index: usize, taken: bool)
        requires
            old(self)@.error <= old(self)@.num < usize::MAX,
        ensures
            final(self)@ == old(self)@.record(index, taken),
    {
        let predicted = self.bht.train(index, taken);
        self.num = self.num + 1;
        if taken != predicted {
            self.error = self.error + 1;
        }
    }

    /// The number of predictions made.
    pub fn num(&self) -> (num: usize)
        ensures
            num == self@.num,
    {
        self.num
    }

    /// The number of mispredictions among them.
    pub fn error(&self) -> (error: usize)
        ensures
            error == self@.error,
    {
        self.error
    }

    /// The counter table.
    pub fn bht(&self) -> (table: &BranchHistoryTable)
        ensures
            table@ == self@.table,
    {
        &self.bht
    }
}

/// A branch predictor: it predicts each branch from one slot of its counter
/// table, which it picks from the branch's address, and then learns the
/// actual outcome. The variants differ in how they pick the slot.
pub trait Predictor {
    /// The number of index bits: the table has `2^bits` slots.
    spec fn spec_bits(&self) -> nat;

    /// The table and the totals.
    spec fn core_state(&self) -> CoreState;

    /// The slot from which a branch at `pc` is predicted in this state.
    spec fn spec_index(&self, pc: usize) -> usize;

    /// The command section of the report for a trace of the given name.
    spec fn command_section(&self, trace: Seq<char>) -> Seq<char>;

    /// The heading of the table contents in the report.
    spec fn contents_heading(&self) -> Seq<char>;

    /// The slot from which a branch at `pc` would be predicted now.
    fn index(&self, pc: usize) -> (index: usize)
        ensures
            index == self.spec_index(pc),
            index < pow2(self.spec_bits()),
    ;

    /// Predicts the branch at `pc` from its slot, counts the prediction and,
    /// if it differs from the actual outcome `is_jump`, the misprediction,
    /// and trains the slot's counter on the outcome.
    fn predict(&mut self, pc: usize, is_jump: bool)
        requires
            old(self).core_state().num < usize::MAX,
        ensures
            final(self).spec_bits() == old(self).spec_bits(),
            final(self).core_state() == old(self).core_state().record(
                old(self).spec_index(pc),
                is_jump,
            ),
    ;

    /// The number of predictions made.
    fn num(&self) -> (num: usize)
        ensures
            num == self.core_state().num,
    ;

    /// The number of mispredictions among them.
    fn error(&self) -> (error: usize)
        ensures
            error == self.core_state().error,
            error <= self.core_state().num,
    ;

    /// The counter table.
    fn bht(&self) -> (table: &BranchHistoryTable)
        ensures
            table@ == self.core_state().table,
    ;

    /// The number of index bits.
    fn bits(&self) -> (bits: usize)
        ensures
            bits == self.spec_bits(),
            bits + 2 <= usize::BITS,
    ;

    /// The command section of the report: its title and the command line
    /// that names the variant, its configuration and the trace.
    fn output_command(&self, trace: String) -> (text: String)
        ensures
            text@ == self.command_section(trace@),
    ;

    /// The heading of the table contents in the report.
    fn output_format(&self) -> (text: String)
        ensures
            text@ == self.contents_heading(),
    ;

    /// The whole report: the command section, the statistics, the heading
    /// and the contents of every slot from 0 to `2^bits - 1`.
    fn output(&self, trace: String) -> (text: String)
        ensures
            text@ == report(
                self.command_section(trace@),
                self.core_state().num,
                self.core_state().error,
                self.contents_heading(),
                self.core_state().table,
                self.spec_bits(),
            ),
    {
        let mut text = self.output_command(trace);
        text.append(statistics_text(self.num(), self.error()).as_str());
        text.append(self.output_format().as_str());
        text.append(contents_text(self.bht(), self.bits()).as_str());
        text
    }
}

} // verus!
