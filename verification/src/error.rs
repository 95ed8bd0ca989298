//! Error categories of the library. Every rule the library reports as an error
//! comes back as a value of `BtError`; no verified function panics.
use vstd::prelude::*;

verus! {

/// Unified error type. The payload is a human-readable message.
#[derive(Debug)]
pub enum BtError {
    /// Data validation failed: duplicate keys, missing columns, invalid prices / factors, ...
    Validation(String),
    /// Trading-calendar errors: range alignment failed, malformed dates.
    Calendar(String),
    /// Invalid parameters: deal_price / benchmark / excess_method / limit_threshold ...
    InvalidParam(String),
    /// Benchmark data does not cover every trading day of the range.
    BenchmarkCoverage(String),
    /// Invalid strategy decision: buying and selling one stock in one step, ...
    InvalidDecision(String),
}

impl BtError {
    /// The message carried by the error.
    pub fn message(&self) -> (r: &String)
        ensures
            r == match self {
                BtError::Validation(m) => m,
                BtError::Calendar(m) => m,
                BtError::InvalidParam(m) => m,
                BtError::BenchmarkCoverage(m) => m,
                BtError::InvalidDecision(m) => m,
            },
    {
        match self {
            BtError::Validation(m) => m,
            BtError::Calendar(m) => m,
            BtError::InvalidParam(m) => m,
            BtError::BenchmarkCoverage(m) => m,
            BtError::InvalidDecision(m) => m,
        }
    }
}

/// Builds a message from a fixed text and the offending input.
pub fn message_with(text: &str, input: &str) -> (r: String)
    ensures
        r@ == text@ + input@,
{
    let mut m = String::from_str(text);
    m.append(input);
    m
}

} // verus!
