//! Reconciles a curated mod preset against a locally installed mod manifest,
//! orders the merged records by a dependency-aware comparator, and renders
//! the ordered list into the launcher's name-list and id-list payloads.
pub mod error;
pub mod game;
pub mod manifest;
pub mod merge;
pub mod output;
pub mod preset;
pub mod sequence;
pub mod text;
