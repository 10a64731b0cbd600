//! A small syslog collection library: parse BSD-syslog priority values,
//! build structured log records, and serialize them as quoted rows of an
//! append-only tabular store, with a bounded ingestion queue, an owning
//! store writer, and counters for the surrounding network loop.

pub mod clock;
pub mod handler;
pub mod pipeline;
pub mod priority;
pub mod queue;
pub mod record;
pub mod rowfmt;
pub mod store;
pub mod text;
