//! Configuration store and structured-logging core.
//!
//! The library has three parts: a self-healing configuration store backed by
//! a human-editable text document, a multi-sink log-routing pipeline with
//! target-based and content-based filters, and a log-rotation policy that
//! prunes day-partitioned directories older than a retention window.

pub mod clock;
pub mod config;
pub mod logger;
pub mod rotate;
pub mod text;
pub mod toml_doc;
