//! Chat-activity experience points: accrual under a cooldown, rank tiers,
//! progress reports and a leaderboard.
//!
//! Experience is counted in thousandths of a point (`u64`), timestamps in
//! milliseconds since the Unix epoch (`i64`).

pub mod rank;
pub mod accrual;
pub mod progress;
pub mod leaderboard;
pub mod config;
