//! Exchange rules that are integer arithmetic, and the choice of market data.

pub mod market;
pub mod rules;
