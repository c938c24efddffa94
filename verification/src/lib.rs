//! Evaluates an asset profile against indicator data and builds a report.
pub mod json;
pub mod laws;
pub mod loader;
pub mod evaluate;
pub mod formats;
pub mod merge;
pub mod pattern;
pub mod profile;
pub mod raw;
pub mod render;
pub mod serialize;
pub mod template;
pub mod text;
