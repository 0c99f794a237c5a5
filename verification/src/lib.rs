//! C-style byte-string and memory primitives with verified contracts.
//!
//! Spans are plain slices, so every access is bounds-checked by
//! construction, and each engine's result is pinned by its contract to a
//! naive reference semantics, whatever strategy an implementation uses
//! internally.

pub mod bits;
pub mod copying;
pub mod errors;
pub mod laws;
pub mod mem;
pub mod search;
pub mod specs;
pub mod strings;
pub mod token;
pub mod types;
pub mod wide;
pub mod wmem;
