use bp_emulator::bimodal::bimodal_index;
use bp_emulator::gshare::gshare_index;
use bp_emulator::{BimodalBranchPredictor, GShareBranchPredictor, Predictor};

#[test]
fn new_gshare_predictor_is_empty() {
    let predictor = GShareBranchPredictor::new(5, 3);
    assert_eq!(predictor.bits(), 5);
    assert_eq!(predictor.history_bits(), 3);
    assert_eq!(predictor.history(), 0);
    assert_eq!(predictor.num(), 0);
    assert_eq!(predictor.error(), 0);
}

#[test]
fn gshare_first_prediction_of_a_taken_branch() {
    let mut predictor = GShareBranchPredictor::new(3, 2);
    // Address bits 2..5 of 0b10100 are 0b101; their top two bits, 0b10, are
    // xored with an empty history, and the low bit passes through.
    assert_eq!(predictor.index(0b10100), 0b101);
    predictor.predict(0b10100, true);
    assert_eq!(predictor.history(), 0b10);
    assert_eq!(predictor.num(), 1);
    assert_eq!(predictor.error(), 0);
    assert_eq!(predictor.bht().counter_at(0b101).value(), 3);
}

#[test]
fn gshare_index_steps_for_address_bits_010() {
    // pc_bits = 0b010: upper = 0b01, xored with no history = 0b01,
    // index = (0b01 << 1) | 0 = 2.
    let mut predictor = GShareBranchPredictor::new(3, 2);
    assert_eq!(predictor.index(0b01000), 2);
    predictor.predict(0b01000, true);
    assert_eq!(predictor.history(), 0b10);
    assert_eq!(predictor.bht().counter_at(2).value(), 3);
    // With history 0b10 the same address now maps to (0b01 ^ 0b10) << 1 | 0 = 6.
    assert_eq!(predictor.index(0b01000), 6);
}

#[test]
fn gshare_index_xors_history_into_the_top_bits() {
    assert_eq!(gshare_index(0b10100, 0b00, 3, 2), 0b101);
    assert_eq!(gshare_index(0b10100, 0b01, 3, 2), 0b111);
    assert_eq!(gshare_index(0b10100, 0b10, 3, 2), 0b001);
    assert_eq!(gshare_index(0b10100, 0b11, 3, 2), 0b011);
    for pc in [0usize, 4, 0x1234, 0x302d28, usize::MAX] {
        for history in 0usize..16 {
            let expected = bimodal_index(pc, 9) ^ (history << 5);
            assert_eq!(gshare_index(pc, history, 9, 4), expected);
        }
    }
}

#[test]
fn gshare_index_with_as_many_history_bits_as_index_bits() {
    for pc in [0usize, 4, 0x1234, 0x302d28] {
        for history in 0usize..8 {
            assert_eq!(gshare_index(pc, history, 3, 3), bimodal_index(pc, 3) ^ history);
        }
    }
}

#[test]
fn gshare_index_ignores_history_beyond_its_bits() {
    assert_eq!(gshare_index(0b10100, 0b1100, 3, 2), gshare_index(0b10100, 0, 3, 2));
    assert_eq!(gshare_index(0b10100, 0b0110, 3, 2), gshare_index(0b10100, 0b10, 3, 2));
}

#[test]
fn gshare_without_history_matches_bimodal() {
    for m in [0usize, 1, 2, 5, 12] {
        for pc in [0usize, 0b10100, 0x302d28, 0xdead_beef, usize::MAX] {
            for history in [0usize, 1, 0b1011, usize::MAX] {
                assert_eq!(gshare_index(pc, history, m, 0), bimodal_index(pc, m));
            }
        }
    }
    let mut gshare = GShareBranchPredictor::new(4, 0);
    let mut bimodal = BimodalBranchPredictor::new(4);
    let trace = [(0x40usize, true), (0x44, false), (0x40, false), (0x7c, true), (0x44, false)];
    for (pc, taken) in trace {
        assert_eq!(gshare.index(pc), bimodal.index(pc));
        gshare.predict(pc, taken);
        bimodal.predict(pc, taken);
        assert_eq!(gshare.history(), 0);
        assert_eq!(gshare.error(), bimodal.error());
    }
    for slot in 0usize..16 {
        assert_eq!(
            gshare.bht().counter_at(slot).value(),
            bimodal.bht().counter_at(slot).value()
        );
    }
}

#[test]
fn gshare_history_holds_the_last_outcomes() {
    let mut predictor = GShareBranchPredictor::new(4, 3);
    predictor.predict(0, true);
    assert_eq!(predictor.history(), 0b100);
    predictor.predict(0, false);
    assert_eq!(predictor.history(), 0b010);
    predictor.predict(0, true);
    assert_eq!(predictor.history(), 0b101);
    predictor.predict(0, true);
    assert_eq!(predictor.history(), 0b110);
    predictor.predict(0, false);
    assert_eq!(predictor.history(), 0b011);
}

#[test]
fn gshare_trains_before_it_shifts() {
    // The slot that is trained is the one picked with the history as it was
    // before the outcome entered it.
    let mut predictor = GShareBranchPredictor::new(2, 2);
    predictor.predict(0, true);
    assert_eq!(predictor.bht().counter_at(0).value(), 3);
    assert_eq!(predictor.bht().counter_at(0b10).value(), 2);
    predictor.predict(0, false);
    assert_eq!(predictor.bht().counter_at(0).value(), 3);
    assert_eq!(predictor.bht().counter_at(0b10).value(), 1);
    assert_eq!(predictor.history(), 0b01);
}

#[test]
fn gshare_counts_every_prediction() {
    let mut predictor = GShareBranchPredictor::new(6, 4);
    for k in 0usize..250 {
        assert_eq!(predictor.num(), k);
        predictor.predict(k * 8, k % 5 < 2);
        assert!(predictor.error() <= predictor.num());
        assert!(predictor.history() < 16);
        assert!(predictor.index(k * 8) < 64);
    }
    assert_eq!(predictor.num(), 250);
}
