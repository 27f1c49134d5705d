//! Replays recorded GET requests against another host, with the timing
//! with which they were recorded.
//!
//! The library reads access records from CSV or JSON, sorts them by time,
//! decides for each record which host it is replayed against, and plans
//! one request per record at its offset from the first. It tells the
//! dispatch loop what to do with each event, turns what a request gave
//! into a measurement, and writes the lines that report a run.

pub mod decimal;
pub mod error;
pub mod ingest;
pub mod json;
pub mod measure;
pub mod plan;
pub mod print;
pub mod record;
pub mod resolver;
pub mod schedule;
pub mod text;
pub mod timestamp;
