//! Verified core of a random-sampling address scanner.
//!
//! The library holds the logic of the scan: the read-only target-address
//! index, key derivation into plain values, the per-worker batching loop
//! step, and the textual match-record format together with its parser.
//! File and network work, process plumbing and the worker threads live
//! outside, in the surrounding application.

pub mod hex;
pub mod index;
pub mod keys;
pub mod record;
pub mod scanner;
