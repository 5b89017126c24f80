//! A small domain-specific language for recording personal investment
//! activity (trades, valuation marks, contribution plans, asset metadata,
//! portfolios) together with an evaluator that replays the records
//! chronologically and produces per-asset financial state and a
//! portfolio-level report.
//!
//! The pipeline is: source text -> [`dsl::lexer::Lexer`] -> token sequence ->
//! [`dsl::parser::Parser`] -> [`dsl::ast::Program`] -> [`evaluator::engine::Engine`]
//! -> [`evaluator::engine::AnalysisReport`].
//!
//! Numeric literals are kept as exact decimals ([`decimal::Decimal`]):
//! an integer mantissa together with a power-of-ten scale. All evaluator
//! arithmetic is exact and checked; an overflow surfaces as an
//! [`evaluator::engine::EngineError`].

pub mod decimal;
pub mod dsl;
pub mod evaluator;
pub mod laws;
pub mod text;
