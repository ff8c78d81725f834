//! A recurrence / scheduling engine: given a schedule (a frequency in an IANA
//! timezone, plus optional calendar overlays, a makeup strategy, and start/end
//! bounds), compute the instants at which a recurring event fires.

pub mod civil;
pub mod zone;
pub mod cron;
pub mod schedule;
pub mod calendar;
pub mod base;
pub mod overlay;
pub mod makeup;
pub mod text;
pub mod generate;
pub mod query;
pub mod engine;
pub mod describe;
pub mod laws;
pub mod window;
