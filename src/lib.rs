//! Supervision core of an embedded networking subsystem: the decisions of the
//! supervisor loop, of each streaming connection and of the synthetic client,
//! the failure reports they produce, and the log-line format.
pub mod report;
pub mod log_record;
pub mod supervisor;
pub mod stream;
pub mod feed;
pub mod demo;
pub mod relay;
