//! Extraction of tagged comments from source text.

pub mod collect;
pub mod config;
pub mod extract;
pub mod matcher;
pub mod render;
pub mod report;
pub mod settings;
pub mod summary;
pub mod text;
