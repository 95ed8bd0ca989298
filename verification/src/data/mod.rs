//! Data layer logic: the trading calendar, the ordering and indexing of market-data
//! rows, required columns, and the column layout of the wap data.

pub mod benchmark;
pub mod calendar;
pub mod columns;
pub mod row_order;
pub mod stock_bar;
pub mod text_keys;
pub mod wap;
