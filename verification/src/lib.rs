//! A verified core for a local template-management tool.
//!
//! The library resolves user-supplied path strings, discovers project
//! templates beneath a storage root, canonicalizes language identifiers,
//! and plans the file-synchronization step that materializes a template
//! into a target directory.

pub mod authoring;
pub mod commands;
pub mod errors;
pub mod languages;
pub mod paths;
pub mod strutil;
pub mod sync;
pub mod templates;
