//! Strategies: the ranking rules and the order-selection logic of the built-in
//! `topk` and `topk_dropout` strategies.

pub mod common;
pub mod topk_dropout;

pub use topk_dropout::TopkDropoutStrategy;
pub mod topk;

pub use topk::TopkStrategy;
