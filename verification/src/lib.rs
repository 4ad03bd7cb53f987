//! Insider-filing signal pipeline: the verified core.
//!
//! Form 4 filings are a low-frequency trigger and market ticks are the
//! high-frequency context. This crate holds the decisions of the pipeline
//! (transaction-code classification, per-symbol rolling state, cluster
//! detection, scoring, feed de-duplication and the small text formats the
//! SEC feed uses); the program around it performs the network, database and
//! channel work and hands plain values in and out.

pub mod durations;
pub mod engine;
pub mod feed;
pub mod form4;
pub mod market;
pub mod scoring;
pub mod seen;
pub mod state;
pub mod types;
