//! Staged editor for a fixed catalog of host configuration settings.
//!
//! The library models setting definitions with typed constraints, tracks
//! live versus pending values, computes the next legal value under a
//! constraint for step-wise adjustment, and drives the view/input state
//! machine of the interactive editor. External concerns (the host value
//! store, terminal drawing, profile files on disk) stay outside; the
//! engine exchanges plain values with them.

pub mod adjust;
pub mod codec;
pub mod engine;
pub mod numerals;
pub mod parse;
pub mod profile;
pub mod settings;
mod strops;
pub mod textorder;
