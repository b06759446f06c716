//! kiln: a verified core for a declarative id3 tag manager.
//!
//! The library covers the pure heart of the tool: the tag data model, the
//! spec-language parser, the section merge that builds one desired tag state
//! per file, and the diff engine that compares desired against current tags.
//! File resolution, tag storage and presentation are collaborators that live
//! outside the library and hand it plain values.

pub mod args;
pub mod diff;
pub mod kiln;
pub mod merge;
pub mod parse;
pub mod tags;
