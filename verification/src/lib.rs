//! A bidirectional translation engine between two smart-contract interface
//! vocabularies: an EVM-style JSON ABI (Solidity type names) and an Ink-style
//! typed metadata registry (Rust-like type names).
//!
//! The crate builds, from a decoded description of one side, the model of a
//! wrapper module for the other side: normalised functions with 4-byte call
//! selectors in one direction, and a registry of translated type texts in the
//! other. Reading input bytes and expanding the final output templates are
//! left to the surrounding application.

pub mod error;
pub mod ink;
pub mod ink2sol;
pub mod json;
pub mod outside;
pub mod seqs;
pub mod sol2ink;
pub mod text;
