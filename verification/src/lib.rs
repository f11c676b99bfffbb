//! Levenshtein edit distance with edit traces.
//!
//! The library computes the edit distance between two character sequences
//! together with the edit trace its tie-break policy selects (the sequence
//! of match, insert, delete and substitute steps that turns the source into
//! the destination), renders traces in a verbose and a compact textual
//! form, and validates command-line arguments for the surrounding program.

pub mod args;
pub mod engine;
pub mod format;
pub mod laws;
pub mod model;
