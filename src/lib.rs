//! Generates redirect artifacts for every file found under a directory:
//! either one small HTML redirect document per file, or a single rule table
//! for a static host.
//!
//! The library holds the decisions and the text; reading directories and
//! writing files is left to the caller.
pub mod validate;
pub mod paths;
pub mod redirects;
pub mod render;
pub mod style;
pub mod plan;
