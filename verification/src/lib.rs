//! Attendance and streak tracking core.
//!
//! This library holds the verified logic behind a nightly attendance job:
//! calendar arithmetic in a fixed organisation timezone, idempotent
//! attendance seeding, a per-month streak state machine, leaderboard
//! refresh decisions, and the signature gate used by the mutation API.

pub mod attendance;
pub mod clock;
pub mod date;
pub mod job;
pub mod kv;
pub mod member;
pub mod numfmt;
pub mod projects;
pub mod queries;
pub mod roster;
pub mod signature;
pub mod status_streak;
pub mod store;
pub mod streak;
