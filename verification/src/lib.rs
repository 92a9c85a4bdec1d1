//! Search support for prompts that AI image generators embed in image metadata.
pub mod text;
pub mod json;
pub mod types;
pub mod extract;
pub mod matcher;
pub mod output;
