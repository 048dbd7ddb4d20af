//! A token-footprint optimizer for text payloads.
//!
//! Text is segmented into tokens, low-information tokens are dropped,
//! canonical abbreviations are substituted, and immediately repeated runs
//! are collapsed.  A bounded least-recently-used cache avoids repeating
//! identical work, and a short history of recent inputs lets a near-identical
//! request be answered by replaying a small edit script instead of a full
//! recomputation.

pub mod cache;
pub mod engine;
pub mod laws;
pub mod clock;
pub mod edits;
pub mod lexicon;
pub mod numfmt;
pub mod segment;
pub mod strategies;
pub mod text;
