//! Position evaluation: pattern scores and the heuristic evaluation.
pub mod heuristic;
pub mod patterns;

pub use heuristic::evaluate;
pub use patterns::{capture_score, PatternScore};
