//! The operations of a patch.

use vstd::prelude::*;

use crate::lists;

verus! {

/// A line of a hunk.
#[derive(Debug, PartialEq)]
pub enum DiffLine {
    /// A line that stays.
    Context(String),
    /// A line that comes in.
    Add(String),
    /// A line that goes.
    Remove(String),
}

/// The contents of a `DiffLine`.
pub enum DiffLineView {
    Context(Seq<char>),
    Add(Seq<char>),
    Remove(Seq<char>),
}

impl View for DiffLine {
    type V = DiffLineView;

    open spec fn view(&self) -> DiffLineView {
        match self {
            DiffLine::Context(s) => DiffLineView::Context(s@),
            DiffLine::Add(s) => DiffLineView::Add(s@),
            DiffLine::Remove(s) => DiffLineView::Remove(s@),
        }
    }
}

/// The contents of a list of hunk lines.
pub open spec fn diff_lines(v: Seq<DiffLine>) -> Seq<DiffLineView> {
    v.map_values(|l: DiffLine| l@)
}

/// A change of some lines in a row.
#[derive(Debug, PartialEq)]
pub struct Hunk {
    /// Text near the place that the hunk is meant for.
    pub context_hint: Option<String>,
    pub lines: Vec<DiffLine>,
}

/// The contents of a `Hunk`.
#[verifier::ext_equal]
pub struct HunkView {
    pub context_hint: Option<Seq<char>>,
    pub lines: Seq<DiffLineView>,
}

impl View for Hunk {
    type V = HunkView;

    open spec fn view(&self) -> HunkView {
        HunkView {
            context_hint: lists::opt_text(self.context_hint),
            lines: diff_lines(self.lines@),
        }
    }
}

/// The contents of a list of hunks.
pub open spec fn hunk_views(v: Seq<Hunk>) -> Seq<HunkView> {
    v.map_values(|h: Hunk| h@)
}

/// One operation of a patch.
#[derive(Debug, PartialEq)]
pub enum FileOp {
    /// Creates a file that is not there.
    Add { path: String, content: String },
    /// Creates or replaces a file.
    Write { path: String, content: String },
    /// Removes a file.
    Delete { path: String },
    /// Changes a file, and may rename it.
    Update { path: String, hunks: Vec<Hunk>, move_to: Option<String> },
    /// Renames a file.
    Move { from: String, to: String },
    /// Shows a file, or parts of it.
    Read {
        path: String,
        symbols: Option<Vec<String>>,
        language: Option<String>,
        offset: Option<usize>,
        limit: Option<usize>,
    },
    /// Shows the shape of a directory.
    MapDir { path: String, depth: Option<usize>, output_limit: Option<usize> },
}

/// The contents of a `FileOp`.
pub enum FileOpView {
    Add { path: Seq<char>, content: Seq<char> },
    Write { path: Seq<char>, content: Seq<char> },
    Delete { path: Seq<char> },
    Update { path: Seq<char>, hunks: Seq<HunkView>, move_to: Option<Seq<char>> },
    Move { from: Seq<char>, to: Seq<char> },
    Read {
        path: Seq<char>,
        symbols: Option<Seq<Seq<char>>>,
        language: Option<Seq<char>>,
        offset: Option<usize>,
        limit: Option<usize>,
    },
    MapDir { path: Seq<char>, depth: Option<usize>, output_limit: Option<usize> },
}

/// The texts of an optional list of strings.
pub open spec fn opt_texts(v: Option<Vec<String>>) -> Option<Seq<Seq<char>>> {
    match v {
        Some(l) => Some(lists::texts(l@)),
        None => None,
    }
}

impl View for FileOp {
    type V = FileOpView;

    open spec fn view(&self) -> FileOpView {
        match self {
            FileOp::Add { path, content } => FileOpView::Add { path: path@, content: content@ },
            FileOp::Write { path, content } => FileOpView::Write { path: path@, content: content@ },
            FileOp::Delete { path } => FileOpView::Delete { path: path@ },
            FileOp::Update { path, hunks, move_to } => FileOpView::Update {
                path: path@,
                hunks: hunk_views(hunks@),
                move_to: lists::opt_text(*move_to),
            },
            FileOp::Move { from, to } => FileOpView::Move { from: from@, to: to@ },
            FileOp::Read { path, symbols, language, offset, limit } => FileOpView::Read {
                path: path@,
                symbols: opt_texts(*symbols),
                language: lists::opt_text(*language),
                offset: *offset,
                limit: *limit,
            },
            FileOp::MapDir { path, depth, output_limit } => FileOpView::MapDir {
                path: path@,
                depth: *depth,
                output_limit: *output_limit,
            },
        }
    }
}

/// The contents of a list of operations.
pub open spec fn op_views(v: Seq<FileOp>) -> Seq<FileOpView> {
    v.map_values(|op: FileOp| op@)
}

/// Appending a line appends its contents.
pub broadcast proof fn lemma_diff_lines_push(v: Seq<DiffLine>, l: DiffLine)
    ensures
        #[trigger] diff_lines(v.push(l)) == diff_lines(v).push(l@),
{
    assert(diff_lines(v.push(l)) =~= diff_lines(v).push(l@));
}

/// Appending a hunk appends its contents.
pub broadcast proof fn lemma_hunk_views_push(v: Seq<Hunk>, h: Hunk)
    ensures
        #[trigger] hunk_views(v.push(h)) == hunk_views(v).push(h@),
{
    assert(hunk_views(v.push(h)) =~= hunk_views(v).push(h@));
}

/// Appending an operation appends its contents.
pub broadcast proof fn lemma_op_views_push(v: Seq<FileOp>, op: FileOp)
    ensures
        #[trigger] op_views(v.push(op)) == op_views(v).push(op@),
{
    assert(op_views(v.push(op)) =~= op_views(v).push(op@));
}

pub broadcast group group_patch {
    lemma_diff_lines_push,
    lemma_hunk_views_push,
    lemma_op_views_push,
}

} // verus!
