//! Source records: the text of a module and where it came from.

use vstd::prelude::*;
use crate::scan::{verdict_view, Verdict, VerdictView};

verus! {

/// Where the text of a source came from.
pub enum SourceKind {
    /// A file of the project, at the path it was found under.
    File { relative_path: Vec<u8> },
    /// Text that no file backs.
    Raw,
}

/// A source record: the text of a module, read in full, its origin, and
/// what the parser said of the text.
pub struct Source {
    pub source: Vec<u8>,
    pub kind: SourceKind,
    pub parsed: Verdict,
}

/// The model of a [`SourceKind`].
pub enum SourceKindView {
    File { relative_path: Seq<u8> },
    Raw,
}

/// The model of a [`Source`].
pub struct SourceView {
    pub source: Seq<u8>,
    pub kind: SourceKindView,
    pub parsed: VerdictView,
}

impl View for SourceKind {
    type V = SourceKindView;

    open spec fn view(&self) -> SourceKindView {
        match self {
            SourceKind::File { relative_path } => SourceKindView::File {
                relative_path: relative_path@,
            },
            SourceKind::Raw => SourceKindView::Raw,
        }
    }
}

impl View for Source {
    type V = SourceView;

    open spec fn view(&self) -> SourceView {
        SourceView { source: self.source@, kind: self.kind@, parsed: verdict_view(self.parsed) }
    }
}

} // verus!
