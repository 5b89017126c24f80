//! The evaluator: replays a parsed program chronologically and produces an
//! analysis report.

pub mod engine;
pub mod output;
