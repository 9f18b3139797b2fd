//! Scheduling and statistics engine for a vocabulary trainer.
//!
//! Words move between a "new", a "mastered" and a "difficult" bucket; the words
//! that have been classified are re-tested on a spaced-repetition schedule, and
//! the size of each review cycle adapts to the learner's accuracy.
mod buckets;
mod catalog;
pub mod cycle;
pub mod laws;
pub mod model;
pub mod order;
mod message;
pub mod ranking;
pub mod state;
pub mod stats;
pub mod table;

pub use catalog::{Phrase, Translation, Word};
pub use message::{L2DMessage, MessageKind, Notice};
pub use cycle::{AccuracyBand, CycleStats};
pub use state::{AppAction, AppState};
pub use stats::WordStats;
pub use table::StatsEntry;
