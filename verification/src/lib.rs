//! A verified reporting pipeline: structured diagnostic reports are built,
//! fanned out to registered observers with per-observer type filters and
//! delivery queues, retained in a per-type bounded historical buffer, and
//! handed to the host in batches by cooperatively scheduled delivery tasks.

pub mod observer;
pub mod registry;
pub mod report;
pub mod url;
