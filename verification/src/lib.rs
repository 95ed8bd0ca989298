//! A daily-frequency A-share backtesting library: instrument coding, deal-price and
//! benchmark vocabularies, the trading calendar, signal validation, the ranking
//! rules of the built-in strategies, and configuration checks.

pub mod error;
pub mod text;
pub mod types;
pub mod strategy;
pub mod signal;
pub mod signal_table;
pub mod data;
pub mod order;
pub mod api;
pub mod config;
pub mod report;
pub mod exchange;
pub mod backtest;
