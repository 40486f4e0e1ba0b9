//! Performance-path analytics over a per-period financial return series:
//! maximum drawdown, maximum gain, longest up/down streaks, best/worst rolling
//! windows and calendar-bucketed drawdown averages, all built on a shared
//! cumulative log-return representation held in fixed-point units.

pub mod analytics;
pub mod common;
pub mod date_util;
pub mod engine;
pub mod enums;
pub mod series;
