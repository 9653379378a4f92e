//! Aggregates changelog fragment files — one small file per pending change,
//! a structured metadata header over a free-text body — into the data that a
//! changelog is rendered from.
//!
//! The library is the verified core: splitting a fragment into header and
//! body by its delimiter lines, decoding the header under the syntax the
//! delimiter selects, classifying path components as release versions,
//! grouping fragments into version buckets sorted by SemVer precedence, and
//! running the same decode pipeline over a whole tree either fail-fast (the
//! release flow) or collecting every failure (the verification flow).
//! Walking directories, reading files and rendering templates stay outside,
//! in the thin program around the library.

pub mod aggregate;
pub mod bytes;
pub mod error;
pub mod fragment;
pub mod paths;
pub mod version;
