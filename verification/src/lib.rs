//! Branch-prediction simulation: bimodal and gshare predictors built on
//! two-bit saturating counters, with every transition stated and proved.
//!
//! A predictor is fed the branches of a trace one by one, each with its
//! address and its actual outcome. It predicts the outcome from one slot of
//! its counter table, counts the prediction and the misprediction, and
//! trains the slot. At the end it reports its totals and every slot.

pub mod bimodal;
pub mod bits;
pub mod counter;
pub mod gshare;
pub mod predictor;
pub mod report;
pub mod table;
pub mod trace;

pub use crate::bimodal::BimodalBranchPredictor;
pub use crate::counter::Counter;
pub use crate::gshare::GShareBranchPredictor;
pub use crate::predictor::{Predictor, PredictorCore};
pub use crate::table::BranchHistoryTable;
pub use crate::trace::TraceError;
