//! Field extraction from semi-structured, line-oriented diagnostic text.
//!
//! A registry of named patterns (each with exactly one capture group) is run
//! against a block of text, either line by line (first matching pattern wins)
//! or over the whole block (every non-overlapping match), and the captured
//! values are folded into a fixed-shape record.

pub mod hwinfo;
pub mod pattern;
pub mod superxtractor;
