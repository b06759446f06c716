//! Errors and the tool's working data: sections, per-file tag state, diffs.

use vstd::prelude::*;

use crate::tags::{TagPair, TagPairView, TagSet, tag_seq_view};

verus! {

/// What went wrong, by area.
#[derive(Clone, Copy, Debug, PartialEq, Eq, Structural)]
pub enum KilnErrorKind {
    File,
    Glob,
    ID3,
    Image,
    Parse,
}

/// An error with its area and the offending fragment (a raw token, a path,
/// or a reason handed in by a collaborator).
#[derive(Debug)]
pub struct KilnError {
    pub kind: KilnErrorKind,
    pub message: String,
}

impl KilnError {
    pub fn new(kind: KilnErrorKind, message: String) -> (r: Self)
        ensures
            r.kind == kind,
            r.message@ == message@,
    {
        Self { kind, message }
    }
}

pub type KilnResult<T> = Result<T, KilnError>;

/// One block of the spec file: a file-selecting header pattern and the
/// assignments below it.
#[derive(Debug)]
pub struct Section {
    pub header: String,
    pub tag_set: TagSet,
}

pub struct SectionView {
    pub header: Seq<char>,
    pub tag_set: Seq<TagPairView>,
}

impl View for Section {
    type V = SectionView;

    open spec fn view(&self) -> SectionView {
        SectionView { header: self.header@, tag_set: tag_seq_view(self.tag_set@) }
    }
}

pub open spec fn section_seq_view(sections: Seq<Section>) -> Seq<SectionView> {
    sections.map_values(|s: Section| s@)
}

/// The tags currently or desirably attached to one file.
#[derive(Debug)]
pub struct FileTagState {
    pub filepath: String,
    pub tags: TagSet,
}

pub struct FileTagStateView {
    pub filepath: Seq<char>,
    pub tags: Seq<TagPairView>,
}

impl View for FileTagState {
    type V = FileTagStateView;

    open spec fn view(&self) -> FileTagStateView {
        FileTagStateView { filepath: self.filepath@, tags: tag_seq_view(self.tags@) }
    }
}

pub open spec fn state_seq_view(states: Seq<FileTagState>) -> Seq<FileTagStateView> {
    states.map_values(|s: FileTagState| s@)
}

/// One operation needed to move a file's tags toward the desired state.
#[derive(Debug)]
pub enum Diff {
    Add(TagPair),
    Delete(TagPair),
    Modify(TagPair, TagPair),
}

pub enum DiffView {
    Add(TagPairView),
    Delete(TagPairView),
    Modify(TagPairView, TagPairView),
}

impl View for Diff {
    type V = DiffView;

    open spec fn view(&self) -> DiffView {
        match self {
            Diff::Add(t) => DiffView::Add(t@),
            Diff::Delete(t) => DiffView::Delete(t@),
            Diff::Modify(o, n) => DiffView::Modify(o@, n@),
        }
    }
}

pub open spec fn diff_seq_view(diffs: Seq<Diff>) -> Seq<DiffView> {
    diffs.map_values(|d: Diff| d@)
}

/// All operations for one file.
#[derive(Debug)]
pub struct FileDiff {
    pub filepath: String,
    pub diffs: Vec<Diff>,
}

pub struct FileDiffView {
    pub filepath: Seq<char>,
    pub diffs: Seq<DiffView>,
}

impl View for FileDiff {
    type V = FileDiffView;

    open spec fn view(&self) -> FileDiffView {
        FileDiffView { filepath: self.filepath@, diffs: diff_seq_view(self.diffs@) }
    }
}

impl FileDiff {
    /// An empty diff for the file a header resolved to.
    pub fn from(header: String) -> (r: Self)
        ensures
            r.filepath@ == header@,
            r.diffs@.len() == 0,
    {
        Self { filepath: header, diffs: Vec::new() }
    }
}

} // verus!
