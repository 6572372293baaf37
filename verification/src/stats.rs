//! Statistics over whole arrays: extrema, averages and order statistics.

pub mod averages;
pub mod basic_stats;
pub mod order_stats;
