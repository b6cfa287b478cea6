//! Hardware capability probe: extracts a GPU capability record from the
//! output of two vendor diagnostic tools (one structured XML form, one
//! free-form text), normalizes units, derives the memory bandwidth, and
//! falls back to a raw diagnostic dump when structured extraction fails.
//!
//! The library works on captured tool output handed in as plain strings;
//! launching the tools and emitting JSON is left to the embedding program.

pub mod errors;
pub mod text;
pub mod numbers;
pub mod clock;
pub mod memsize;
pub mod xml;
pub mod settings;
pub mod smi;
pub mod gpu;
pub mod outcome;
