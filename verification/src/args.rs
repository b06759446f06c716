//! The command-line surface, as plain data. The argument parser itself is a
//! collaborator outside the library; it fills these in and hands them over.

use vstd::prelude::*;

use crate::tags::TagId;

verus! {

/// Top-level invocation: which command to run.
pub struct KilnArgs {
    pub command: Commands,
}

pub enum Commands {
    /// List tags for all selected files.
    List(ListArgs),
    /// Set tags given an input file.
    SetTags(SetArgs),
}

/// Arguments of the list command.
pub struct ListArgs {
    /// Glob string to select files/directories.
    pub glob: String,
    /// Turn off comments in the output.
    pub no_comments: bool,
    /// Force listing files with no tags.
    pub force_empty: bool,
}

/// Arguments of the set command.
pub struct SetArgs {
    /// Input file to read tags from.
    pub input_file: String,
    /// Ask for user confirmation before writing tags to files.
    pub ask: bool,
    /// Tags to preserve: never deleted even when absent from the spec.
    pub preserved_tags: Vec<TagId>,
}

} // verus!
