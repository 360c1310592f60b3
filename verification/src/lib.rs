//! A local Markdown notebook: note titles, note listings, search results,
//! markdown rendering and the rules of the web UI, with their contracts.

pub mod cache;
pub mod config;
pub mod highlighter;
pub mod notes;
pub mod patterns;
pub mod startup;
pub mod text;
pub mod types;
