//! Analytics for a daily price series: a trailing windowed moving average,
//! day-over-day and fixed-lag price changes, a fixed-bin histogram of one-day
//! percent changes, and a calendar-year rollup.
//!
//! Prices are carried as exact amounts in hundredths (cents), so every
//! derived quantity is computed in exact integer arithmetic; percent changes
//! are kept as exact rationals until a caller asks for a rounded value.

pub mod series;
pub mod date;
pub mod observation;
pub mod moving_average;
pub mod price_change;
pub mod histogram;
pub mod yearly;
pub mod analytics;
pub mod parse;
