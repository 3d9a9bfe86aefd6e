//! The gshare predictor: the slot of a branch is a field of its address
//! whose top bits are xored with the outcomes of the most recent branches.

use crate::bimodal::{spec_bimodal_index, BimodalState};
use crate::bits::{
    extract_bits, lemma_extract_bits_bound, lemma_extract_low_of_small, lemma_extract_no_bits,
    lemma_extract_top_of_small, lemma_one_shl, lemma_shift_in_bound, shift_in, spec_extract_bits,
    spec_shift_in,
};
use crate::predictor::{CoreState, Predictor, PredictorCore};
use crate::report::{decimal_digits, decimal_text};
use crate::table::BranchHistoryTable;
use vstd::arithmetic::power2::{lemma2_to64, lemma_pow2_pos, pow2};
use vstd::bits::{
    lemma_usize_low_bits_mask_is_mod, lemma_usize_pow2_no_overflow, lemma_usize_shr_is_div,
};
use vstd::prelude::*;

verus! {

/// The slot of a branch at `pc` in a gshare table of `2^m` slots, with the
/// last `n` outcomes in `history`. The `m` index bits come from the address
/// above its two low bits. Their top `n` bits are xored with the `n` bits
/// of history; their `m - n` low bits pass through unchanged.
pub open spec fn spec_gshare_index(pc: usize, history: usize, m: nat, n: nat) -> usize {
    let gh = spec_extract_bits(history, 0, n);
    let pc_bits = spec_extract_bits(pc, 2, m);
    let low = (m - n) as nat;
    let upper = spec_extract_bits(pc_bits, low, n);
    ((upper ^ gh) << (low as usize)) | spec_extract_bits(pc_bits, 0, low)
}

/// The gshare slot lies inside the table.
pub proof fn lemma_gshare_index_bound(pc: usize, history: usize, m: nat, n: nat)
    requires
        n <= m < usize::BITS,
    ensures
        spec_gshare_index(pc, history, m, n) < pow2(m),
{
    let low = (m - n) as usize;
    let width = n as usize;
    let gh = spec_extract_bits(history, 0, n);
    let pc_bits = spec_extract_bits(pc, 2, m);
    let upper = spec_extract_bits(pc_bits, low as nat, n);
    let lower = spec_extract_bits(pc_bits, 0, low as nat);
    lemma_extract_bits_bound(history, 0, n);
    lemma_extract_bits_bound(pc_bits, low as nat, n);
    lemma_extract_bits_bound(pc_bits, 0, low as nat);
    lemma_one_shl(width);
    lemma_one_shl(low);
    lemma_one_shl(m as usize);
    assert((((upper ^ gh) << low) | lower) < (1usize << ((width + low) as usize))) by (bit_vector)
        requires
            width + low < usize::BITS,
            upper < (1usize << width),
            gh < (1usize << width),
            lower < (1usize << low),
    ;
}

/// Without history bits the gshare slot is the bimodal slot, whatever the
/// history register holds.
pub proof fn lemma_gshare_without_history(pc: usize, history: usize, m: nat)
    requires
        m < usize::BITS,
    ensures
        spec_gshare_index(pc, history, m, 0) == spec_bimodal_index(pc, m),
{
    let pc_bits = spec_extract_bits(pc, 2, m);
    let shift = m as usize;
    lemma_extract_no_bits(history, 0);
    lemma_extract_no_bits(pc_bits, m);
    lemma_extract_bits_bound(pc, 2, m);
    lemma_extract_low_of_small(pc_bits, m);
    assert((((0usize ^ 0usize) << shift) | pc_bits) == pc_bits) by (bit_vector);
}

/// The gshare slot is the bimodal slot xored with the history, which is
/// first moved up to the top `n` of the `m` index bits.
pub proof fn lemma_gshare_is_xor(pc: usize, history: usize, m: nat, n: nat)
    requires
        n <= m < usize::BITS,
        history < pow2(n),
    ensures
        spec_gshare_index(pc, history, m, n) == spec_bimodal_index(pc, m) ^ (history << ((m
            - n) as usize)),
{
    let low = (m - n) as usize;
    let pc_bits = spec_extract_bits(pc, 2, m);
    let upper = spec_extract_bits(pc_bits, low as nat, n);
    let lower = spec_extract_bits(pc_bits, 0, low as nat);
    lemma_extract_low_of_small(history, n);
    lemma_extract_bits_bound(pc, 2, m);
    lemma_extract_top_of_small(pc_bits, low as nat, n);
    lemma_usize_shr_is_div(pc_bits, low);
    lemma2_to64();
    lemma_usize_low_bits_mask_is_mod(pc_bits, low as nat);
    lemma_one_shl(low);
    lemma_usize_pow2_no_overflow(low as nat);
    let mask = ((1usize << low) - 1) as usize;
    assert(upper == pc_bits >> low);
    assert(lower == pc_bits & mask);
    assert((((pc_bits >> low) ^ history) << low) | (pc_bits & mask) == pc_bits ^ (history << low))
        by (bit_vector)
        requires
            low < usize::BITS,
            mask == ((1usize << low) - 1) as usize,
    ;
}

/// Computes the gshare slot of a branch at `pc`.
pub fn gshare_index(pc: usize, history: usize, m: usize, n: usize) -> (index: usize)
    requires
        n <= m < usize::BITS,
    ensures
        index == spec_gshare_index(pc, history, m as nat, n as nat),
        index < pow2(m as nat),
{
    let gh = extract_bits(history, 0, n);
    let pc_bits = extract_bits(pc, 2, m);
    let low = m - n;
    let upper = extract_bits(pc_bits, low, n);
    let xored = upper ^ gh;
    proof {
        lemma_gshare_index_bound(pc, history, m as nat, n as nat);
    }
    (xored << low) | extract_bits(pc_bits, 0, low)
}

/// The state of a gshare predictor as a value.
pub struct GShareState {
    /// The number of address bits that index the table.
    pub m: nat,
    /// The number of history bits, at most `m`.
    pub n: nat,
    /// The history register: the last `n` outcomes, the latest at bit `n - 1`.
    pub history: nat,
    /// The table and the totals.
    pub core: CoreState,
}

impl GShareState {
    /// The state of a new predictor.
    pub open spec fn init(m: nat, n: nat) -> GShareState {
        GShareState { m, n, history: 0, core: CoreState::empty() }
    }

    /// What holds of every state that a predictor reaches.
    pub open spec fn wf(self) -> bool {
        &&& self.n <= self.m
        &&& self.m + 2 <= usize::BITS
        &&& self.history < pow2(self.n)
        &&& self.core.wf(self.m)
    }

    /// The slot from which a branch at `pc` is predicted.
    pub open spec fn index(self, pc: usize) -> usize {
        spec_gshare_index(pc, self.history as usize, self.m, self.n)
    }

    /// The state after the branch at `pc` was predicted and turned out
    /// `taken`: the slot's counter is trained first, then the outcome enters
    /// the history.
    pub open spec fn step(self, pc: usize, taken: bool) -> GShareState {
        GShareState {
            m: self.m,
            n: self.n,
            history: spec_shift_in(self.history, self.n, taken),
            core: self.core.record(self.index(pc), taken),
        }
    }

    /// The state after a sequence of branches, each given by its address and
    /// its outcome, was predicted in order.
    pub open spec fn run(self, events: Seq<(usize, bool)>) -> GShareState
        decreases events.len(),
    {
        if events.len() == 0 {
            self
        } else {
            self.run(events.drop_last()).step(events.last().0, events.last().1)
        }
    }

    /// A new predictor is well formed.
    pub proof fn lemma_init_wf(m: nat, n: nat)
        requires
            n <= m,
            m + 2 <= usize::BITS,
        ensures
            Self::init(m, n).wf(),
    {
        lemma_pow2_pos(n);
    }

    /// One prediction keeps the state well formed and the configuration as it
    /// is, and counts exactly one prediction and at most one misprediction.
    pub proof fn lemma_step(self, pc: usize, taken: bool)
        requires
            self.wf(),
        ensures
            self.step(pc, taken).wf(),
            self.step(pc, taken).m == self.m,
            self.step(pc, taken).n == self.n,
            self.step(pc, taken).core.num == self.core.num + 1,
            self.core.error <= self.step(pc, taken).core.error <= self.core.error + 1,
    {
        lemma_gshare_index_bound(pc, self.history as usize, self.m, self.n);
        lemma_shift_in_bound(self.history, self.n, taken);
        self.core.lemma_record(self.m, self.index(pc), taken);
    }

    /// After any sequence of predictions the state is well formed, the
    /// configuration is unchanged, the number of predictions has grown by
    /// exactly the length of the sequence, and there are no more
    /// mispredictions than predictions.
    pub proof fn lemma_run(self, events: Seq<(usize, bool)>)
        requires
            self.wf(),
        ensures
            self.run(events).wf(),
            self.run(events).m == self.m,
            self.run(events).n == self.n,
            self.run(events).core.num == self.core.num + events.len(),
            self.run(events).core.error <= self.run(events).core.num,
        decreases events.len(),
    {
        if events.len() > 0 {
            self.lemma_run(events.drop_last());
            self.run(events.drop_last()).lemma_step(events.last().0, events.last().1);
        }
    }

    /// A new predictor that has predicted `k` branches has made exactly `k`
    /// predictions.
    pub proof fn lemma_counts_every_prediction(m: nat, n: nat, events: Seq<(usize, bool)>)
        requires
            n <= m,
            m + 2 <= usize::BITS,
        ensures
            Self::init(m, n).run(events).core.num == events.len(),
    {
        Self::lemma_init_wf(m, n);
        Self::init(m, n).lemma_run(events);
    }

    /// A predictor without history bits goes through a trace exactly as the
    /// bimodal predictor with the same index bits does: at every point both
    /// hold the same table and the same totals.
    pub proof fn lemma_without_history_runs_as_bimodal(m: nat, events: Seq<(usize, bool)>)
        requires
            m + 2 <= usize::BITS,
        ensures
            Self::init(m, 0).run(events).history == 0,
            Self::init(m, 0).run(events).core == BimodalState::init(m).run(events).core,
        decreases events.len(),
    {
        if events.len() > 0 {
            let before = Self::init(m, 0).run(events.drop_last());
            Self::lemma_without_history_runs_as_bimodal(m, events.drop_last());
            Self::lemma_init_wf(m, 0);
            Self::init(m, 0).lemma_run(events.drop_last());
            BimodalState::init(m).lemma_run(events.drop_last());
            before.lemma_without_history_is_bimodal(events.last().0);
        }
    }

    /// A predictor without history bits picks the bimodal slot for every
    /// address, in every state it reaches.
    pub proof fn lemma_without_history_is_bimodal(self, pc: usize)
        requires
            self.wf(),
            self.n == 0,
        ensures
            self.index(pc) == spec_bimodal_index(pc, self.m),
    {
        lemma_gshare_without_history(pc, self.history as usize, self.m);
    }
}

/// A gshare branch predictor over a table of `2^m` slots with `n` bits of
/// global history.
pub struct GShareBranchPredictor {
    /// The global history register.
    gbhr: usize,
    /// The number of history bits.
    n: usize,
    /// The number of address bits that index the table.
    m: usize,
    /// The table and the totals.
    core: PredictorCore,
}

impl View for GShareBranchPredictor {
    type V = GShareState;

    closed spec fn view(&self) -> GShareState {
        GShareState {
            m: self.m as nat,
            n: self.n as nat,
            history: self.gbhr as nat,
            core: self.core@,
        }
    }
}

/// The command section of a gshare report.
pub open spec fn gshare_command(m: nat, n: nat, trace: Seq<char>) -> Seq<char> {
    "COMMAND\n"@ + "./sim gshare "@ + decimal_digits(m) + " "@ + decimal_digits(n) + " 0 0 "@
        + trace + "\n"@
}

impl GShareBranchPredictor {
    /// Holds of every predictor there is: its state is well formed.
    #[verifier::type_invariant]
    pub open spec fn inv(self) -> bool {
        self@.wf()
    }

    /// A predictor with `m` index bits and `n` history bits, an empty table,
    /// an empty history and both totals 0. There can be no more history bits
    /// than index bits, and the index bits have to lie inside an address
    /// above its two low bits.
    pub fn new(m: usize, n: usize) -> (predictor: Self)
        requires
            n <= m,
            m + 2 <= usize::BITS,
        ensures
            predictor@ == GShareState::init(m as nat, n as nat),
    {
        proof {
            GShareState::lemma_init_wf(m as nat, n as nat);
        }
        GShareBranchPredictor { gbhr: 0, n, m, core: PredictorCore::new() }
    }

    /// The global history register: the last `n` outcomes, the latest at bit
    /// `n - 1`, a taken branch as 1.
    pub fn history(&self) -> (history: usize)
        ensures
            history == self@.history,
            history < pow2(self@.n),
    {
        proof {
            use_type_invariant(self);
        }
        self.gbhr
    }

    /// The number of history bits.
    pub fn history_bits(&self) -> (n: usize)
        ensures
            n == self@.n,
            n <= self@.m,
    {
        proof {
            use_type_invariant(self);
        }
        self.n
    }
}

impl Predictor for GShareBranchPredictor {
    open spec fn spec_bits(&self) -> nat {
        self@.m
    }

    open spec fn core_state(&self) -> CoreState {
        self@.core
    }

    open spec fn spec_index(&self, pc: usize) -> usize {
        self@.index(pc)
    }

    open spec fn command_section(&self, trace: Seq<char>) -> Seq<char> {
        gshare_command(self@.m, self@.n, trace)
    }

    open spec fn contents_heading(&self) -> Seq<char> {
        "FINAL GSHARE CONTENTS\n"@
    }

    fn index(&self, pc: usize) -> (index: usize) {
        proof {
            use_type_invariant(self);
        }
        gshare_index(pc, self.gbhr, self.m, self.n)
    }

    fn predict(&mut self, pc: usize, is_jump: bool)
        ensures
            final(self)@ == old(self)@.step(pc, is_jump),
    {
        proof {
            use_type_invariant(&*self);
            self@.lemma_step(pc, is_jump);
        }
        let index = gshare_index(pc, self.gbhr, self.m, self.n);
        // The core is swapped out for the call: the predictor has to be whole
        // whenever a call on one of its parts could unwind.
        let mut core = PredictorCore::new();
        core::mem::swap(&mut self.core, &mut core);
        core.record(index, is_jump);
        self.core = core;
        self.gbhr = shift_in(self.gbhr, self.n, is_jump);
    }

    fn num(&self) -> (num: usize) {
        self.core.num()
    }

    fn error(&self) -> (error: usize) {
        proof {
            use_type_invariant(self);
        }
        self.core.error()
    }

    fn bht(&self) -> (table: &BranchHistoryTable) {
        self.core.bht()
    }

    fn bits(&self) -> (bits: usize) {
        proof {
            use_type_invariant(self);
        }
        self.m
    }

    fn output_command(&self, trace: String) -> (text: String) {
        let mut text = String::from_str("COMMAND\n");
        text.append("./sim gshare ");
        text.append(decimal_text(self.m).as_str());
        text.append(" ");
        text.append(decimal_text(self.n).as_str());
        text.append(" 0 0 ");
        text.append(trace.as_str());
        text.append("\n");
        text
    }

    fn output_format(&self) -> (text: String) {
        String::from_str("FINAL GSHARE CONTENTS\n")
    }
}

} // verus!
