//! Search and replace over byte content, driven by a compiled pattern.

pub mod engine;
pub mod error;
pub mod flags;
pub mod highlight;
pub mod replacer;
pub mod rewrite;
pub mod splice;
pub mod strip;
pub mod template;
pub mod unescape;
