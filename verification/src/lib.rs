//! Turns telemetry tables (sensor id, timestamp, measured quantities) into
//! multi-panel chart plans: timestamp normalization into the Tokyo timezone,
//! day-aligned axis ranges, per-sensor series extraction, y-range derivation,
//! deterministic color assignment and tick labelling. A thin unverified shell
//! reads the files and hands each plan to a drawing backend.

pub mod csv;
pub mod errors;
pub mod labels;
pub mod normalize;
pub mod plan;
pub mod table;
pub mod time;
pub mod tz;
