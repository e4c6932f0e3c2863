//! Splits a chaptered audio container into one file per chapter.
//!
//! The library holds the decisions of a run: which chapters the probe
//! document describes, how their files are named, which tags are merged,
//! where the cover is, which segments are converted, and in which order all
//! of it happens. The caller starts the external tools, reads and writes the
//! files, and reports back how each step ended.

pub mod args;
pub mod commands;
pub mod error;
pub mod json;
pub mod metadata;
pub mod pipeline;
pub mod tags;
pub mod text;
pub mod utils;
