//! A two-phase string interner: a mutable builder deduplicates strings and
//! hands out dense integer symbols, and an immutable resolver packs every
//! interned string into one contiguous arena and answers lookups in both
//! directions. Symbol `0` is reserved for the empty string.

pub mod codec;
pub mod interner;
pub mod laws;
pub mod model;
pub mod text;
