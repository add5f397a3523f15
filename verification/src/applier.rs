//! Carrying out the operations of a patch, on what is staged.

use vstd::prelude::*;
use vstd::string::*;

pub use crate::hunks::HunkResult;
pub use crate::outcome::{OpResult, OpStatus, PatchOutcome, PatchResult};
pub use crate::workspace::{check_symlink, validate_path, PatchSession, VirtualPathKind};

use crate::bytes;
use crate::bytes::{copy_bytes, decode, encode};
use crate::diffs;
use crate::diffs::{generate_add_diff, generate_unified_diff};
use crate::error;
use crate::error::{cat2, cat3, PatchError};
use crate::hunks;
use crate::hunks::{apply_hunks, build_match_info, joined_lines};
use crate::lists;
use crate::newlines;
use crate::newlines::unix_newlines;
use crate::numbers;
use crate::numbers::decimal_of;
use crate::outcome;
use crate::outcome::{make_error_op, make_op, with_path_source};
use crate::patch;
use crate::patch::{FileOp, Hunk};
use crate::text;
use crate::text::{lines_of, same_text};
use crate::workspace;
use crate::workspace::{Sight, StagedFile};

verus! {

broadcast use {crate::lists::group_lists, crate::outcome::lemma_result_views_push};

// ---------------------------------------------------------------------------
// Operations
// ---------------------------------------------------------------------------

/// What an operation is called, and the path that it is about.
pub open spec fn op_name(op: patch::FileOpView) -> (Seq<char>, Seq<char>) {
    match op {
        patch::FileOpView::Add { path, .. } => ("add"@, path),
        patch::FileOpView::Write { path, .. } => ("write"@, path),
        patch::FileOpView::Delete { path } => ("delete"@, path),
        patch::FileOpView::Update { path, .. } => ("update"@, path),
        patch::FileOpView::Move { from, .. } => ("move"@, from),
        patch::FileOpView::Read { path, .. } => ("read"@, path),
        patch::FileOpView::MapDir { path, .. } => ("map"@, path),
    }
}

/// Whether an operation changes files.
pub open spec fn mutates(op: patch::FileOpView) -> bool {
    !(op is Read) && !(op is MapDir)
}

/// What an operation is called, and the path that it is about.
pub fn name_op(op: &FileOp) -> (r: (&'static str, &str))
    ensures
        (r.0@, r.1@) == op_name(op@),
{
    match op {
        FileOp::Add { path, .. } => ("add", path.as_str()),
        FileOp::Write { path, .. } => ("write", path.as_str()),
        FileOp::Delete { path } => ("delete", path.as_str()),
        FileOp::Update { path, .. } => ("update", path.as_str()),
        FileOp::Move { from, .. } => ("move", from.as_str()),
        FileOp::Read { path, .. } => ("read", path.as_str()),
        FileOp::MapDir { path, .. } => ("map", path.as_str()),
    }
}

/// What an operation does to the files, and what is said of it.
#[derive(Debug)]
pub struct Change {
    /// The files as they are to be.
    pub files: Vec<StagedFile>,
    pub status: OpStatus,
    pub message: String,
    pub diff: Option<String>,
    pub line_changes: Option<(usize, usize)>,
    pub match_info: Option<String>,
}

/// The contents of a `Change`.
#[verifier::ext_equal]
pub struct ChangeView {
    pub files: Seq<workspace::StagedView>,
    pub status: OpStatus,
    pub message: Seq<char>,
    pub diff: Option<Seq<char>>,
    pub line_changes: Option<(usize, usize)>,
    pub match_info: Option<Seq<char>>,
}

impl View for Change {
    type V = ChangeView;

    open spec fn view(&self) -> ChangeView {
        ChangeView {
            files: workspace::staged_views(self.files@),
            status: self.status,
            message: self.message@,
            diff: lists::opt_text(self.diff),
            line_changes: self.line_changes,
            match_info: lists::opt_text(self.match_info),
        }
    }
}

/// A change or an error.
pub type Changed = Result<ChangeView, error::PatchErrorView>;

/// A file as it is to be.
pub open spec fn file_is(path: Seq<char>, content: Seq<u8>) -> workspace::StagedView {
    workspace::StagedView { path, content: Some(content) }
}

/// A file that is to go.
pub open spec fn file_gone(path: Seq<char>) -> workspace::StagedView {
    workspace::StagedView { path, content: None }
}

/// The message of a change in the number of lines.
pub open spec fn lines_message(before: int, after: int) -> Seq<char> {
    numbers::decimal(before as nat) + " → "@ + numbers::decimal(after as nat) + " lines"@
}

/// A new file.
pub open spec fn created(full: Seq<char>, content: Seq<char>) -> ChangeView {
    ChangeView {
        files: seq![file_is(full, bytes::encoded(content))],
        status: OpStatus::Success,
        message: "File created"@,
        diff: diffs::add_diff(full, text::lines(content)),
        line_changes: Some((0, text::lines(content).len() as usize)),
        match_info: None,
    }
}

/// A file that must not be there yet.
pub open spec fn add_change(
    s: workspace::SessionView,
    path: Seq<char>,
    content: Seq<char>,
) -> Changed {
    let full = workspace::full_path(s, path);
    match workspace::virtual_node(s, full) {
        None => Ok(created(full, content)),
        Some(_) => Err(error::PatchErrorView::FileAlreadyExists(workspace::shown_path(s, path))),
    }
}

/// A file that is replaced by a text.
pub open spec fn replaced(
    full: Seq<char>,
    path: Seq<char>,
    old_bytes: Seq<u8>,
    content: Seq<char>,
) -> ChangeView {
    let decoded = bytes::decoded(old_bytes);
    let before = match decoded {
        Some(t) => newlines::unix(t),
        None => Seq::empty(),
    };
    let (b, a) = (text::lines(before).len() as int, text::lines(content).len() as int);
    ChangeView {
        files: seq![file_is(full, bytes::encoded(content))],
        status: OpStatus::Success,
        message: lines_message(b, a),
        diff: if decoded is Some {
            diffs::update_diff(before, content, path)
        } else {
            None
        },
        line_changes: Some((b as usize, a as usize)),
        match_info: None,
    }
}

/// A file that may be there already.
pub open spec fn write_change(
    s: workspace::SessionView,
    path: Seq<char>,
    content: Seq<char>,
) -> Changed {
    let full = workspace::full_path(s, path);
    match workspace::path_kind(s, path) {
        Err(e) => Err(e),
        Ok(VirtualPathKind::Missing) => Ok(created(full, content)),
        Ok(VirtualPathKind::Directory) => Err(error::PatchErrorView::Io("Not a regular file"@)),
        Ok(VirtualPathKind::File) => Ok(
            replaced(full, path, workspace::virtual_node(s, full)->0->File_0, content),
        ),
    }
}

/// The text of a file, with its line ends made uniform. Of a directory the system says why it has
/// none.
pub open spec fn file_text(s: workspace::SessionView, path: Seq<char>) -> Result<
    Seq<char>,
    error::PatchErrorView,
> {
    if let Some(workspace::NodeView::Directory(m)) = workspace::virtual_node(
        s,
        workspace::full_path(s, path),
    ) {
        Err(error::PatchErrorView::Io(m))
    } else {
        match workspace::file_bytes(s, path) {
            Err(e) => Err(e),
            Ok(b) => match bytes::decoded(b) {
                Some(t) => Ok(newlines::unix(t)),
                None => Err(error::PatchErrorView::Io("stream did not contain valid UTF-8"@)),
            },
        }
    }
}

/// A file that goes. One that is not there is left that way.
pub open spec fn delete_change(s: workspace::SessionView, path: Seq<char>) -> Changed {
    let full = workspace::full_path(s, path);
    if workspace::path_kind(s, path) == Ok::<VirtualPathKind, error::PatchErrorView>(
        VirtualPathKind::Missing,
    ) {
        Ok(
            ChangeView {
                files: Seq::empty(),
                status: OpStatus::Skipped,
                message: "File does not exist"@,
                diff: None,
                line_changes: None,
                match_info: None,
            },
        )
    } else {
        match file_text(s, path) {
            Err(e) => Err(e),
            Ok(t) => {
                let n = text::lines(t).len();
                Ok(
                    ChangeView {
                        files: seq![file_gone(full)],
                        status: OpStatus::Success,
                        message: "removed "@ + numbers::decimal(n) + " lines"@,
                        diff: None,
                        line_changes: Some((n as usize, 0)),
                        match_info: None,
                    },
                )
            },
        }
    }
}

/// The files after an update: the file itself, or its new place and the old one gone.
pub open spec fn update_files(
    s: workspace::SessionView,
    path: Seq<char>,
    move_to: Option<Seq<char>>,
    content: Seq<u8>,
) -> Result<Seq<workspace::StagedView>, error::PatchErrorView> {
    let full = workspace::full_path(s, path);
    match move_to {
        None => Ok(seq![file_is(full, content)]),
        Some(dest) => {
            let dest_full = workspace::full_path(s, dest);
            if dest_full == full {
                Ok(seq![file_is(full, content)])
            } else {
                match workspace::path_kind(s, dest) {
                    Err(e) => Err(e),
                    Ok(VirtualPathKind::Directory) => Err(
                        error::PatchErrorView::Io("Not a regular file"@),
                    ),
                    Ok(_) => Ok(seq![file_is(dest_full, content), file_gone(full)]),
                }
            }
        },
    }
}

/// A file that is changed by hunks, and may be renamed.
pub open spec fn update_change(
    s: workspace::SessionView,
    path: Seq<char>,
    list: Seq<patch::HunkView>,
    move_to: Option<Seq<char>>,
) -> Changed {
    match file_text(s, path) {
        Err(e) => Err(e),
        Ok(before) => {
            let lines = text::lines(before);
            match hunks::hunks_outcome(lines, list, path, s.threshold, list.len() as int) {
                Err(e) => Err(e),
                Ok((new_lines, results)) => {
                    let after = hunks::text_of_lines(before, new_lines);
                    match update_files(s, path, move_to, bytes::encoded(after)) {
                        Err(e) => Err(e),
                        Ok(files) => Ok(
                            ChangeView {
                                files,
                                status: OpStatus::Success,
                                message: match move_to {
                                    Some(dest) => "File updated and moved to "@ + dest,
                                    None => lines_message(
                                        lines.len() as int,
                                        new_lines.len() as int,
                                    ),
                                },
                                diff: diffs::update_diff(before, after, path),
                                line_changes: Some(
                                    (lines.len() as usize, new_lines.len() as usize),
                                ),
                                match_info: hunks::match_info(results),
                            },
                        ),
                    }
                },
            }
        },
    }
}

/// A file that is renamed. Nothing may be at its new place.
pub open spec fn move_change(
    s: workspace::SessionView,
    from: Seq<char>,
    to: Seq<char>,
) -> Changed {
    let full = workspace::full_path(s, from);
    let dest_full = workspace::full_path(s, to);
    match workspace::file_bytes(s, from) {
        Err(e) => Err(e),
        Ok(content) => match workspace::path_kind(s, to) {
            Err(e) => Err(e),
            Ok(VirtualPathKind::Missing) => Ok(
                ChangeView {
                    files: seq![file_is(dest_full, content), file_gone(full)],
                    status: OpStatus::Success,
                    message: "File moved to "@ + to,
                    diff: None,
                    line_changes: None,
                    match_info: None,
                },
            ),
            Ok(_) => Err(error::PatchErrorView::FileAlreadyExists(workspace::shown_path(s, to))),
        },
    }
}

/// What an operation does that changes no files.
pub open spec fn no_change() -> ChangeView {
    ChangeView {
        files: Seq::empty(),
        status: OpStatus::Success,
        message: Seq::empty(),
        diff: None,
        line_changes: None,
        match_info: None,
    }
}

/// What an operation does to the files.
pub open spec fn change(s: workspace::SessionView, op: patch::FileOpView) -> Changed {
    match op {
        patch::FileOpView::Add { path, content } => add_change(s, path, content),
        patch::FileOpView::Write { path, content } => write_change(s, path, content),
        patch::FileOpView::Delete { path } => delete_change(s, path),
        patch::FileOpView::Update { path, hunks, move_to } => update_change(
            s,
            path,
            hunks,
            move_to,
        ),
        patch::FileOpView::Move { from, to } => move_change(s, from, to),
        patch::FileOpView::Read { .. } => Ok(no_change()),
        patch::FileOpView::MapDir { .. } => Ok(no_change()),
    }
}

/// What is staged after the first `k` files of a change.
pub open spec fn put_files(
    staged: Seq<workspace::StagedView>,
    files: Seq<workspace::StagedView>,
    k: int,
) -> Seq<workspace::StagedView>
    decreases k,
{
    if k <= 0 {
        staged
    } else {
        workspace::put(put_files(staged, files, k - 1), files[k - 1].path, files[k - 1].content)
    }
}

/// The session after an operation. A failure leaves it as it was.
pub open spec fn after_change(
    s: workspace::SessionView,
    op: patch::FileOpView,
) -> workspace::SessionView {
    match change(s, op) {
        Ok(c) => workspace::with_staged(s, put_files(s.staged, c.files, c.files.len() as int)),
        Err(_) => s,
    }
}

/// The result of an operation that changes files.
pub open spec fn change_result(
    s: workspace::SessionView,
    op: patch::FileOpView,
    batch: Option<(usize, usize)>,
) -> outcome::OpResultView {
    let (op_type, path) = op_name(op);
    let source = workspace::path_source(s, path);
    match change(s, op) {
        Ok(c) => outcome::OpResultView {
            diff: c.diff,
            line_changes: c.line_changes,
            match_info: c.match_info,
            path_source: Some(source),
            ..outcome::plain_result(path, op_type, c.status, c.message, batch)
        },
        Err(e) => outcome::sourced(outcome::error_result(path, op_type, e, batch), source),
    }
}

// ---------------------------------------------------------------------------
// Staging
// ---------------------------------------------------------------------------

/// Whether a change or an error is the one that is owed.
spec fn is_changed(r: Result<Change, PatchError>, owed: Changed) -> bool {
    match r {
        Ok(c) => owed == Ok::<ChangeView, error::PatchErrorView>(c@),
        Err(e) => owed == Err::<ChangeView, error::PatchErrorView>(e@),
    }
}

/// One file.
fn one_file(path: String, content: Option<Vec<u8>>) -> (r: Vec<StagedFile>)
    ensures
        workspace::staged_views(r@) == seq![
            workspace::StagedView { path: path@, content: workspace::opt_bytes(content) },
        ],
{
    let mut files: Vec<StagedFile> = Vec::new();
    let f = StagedFile { path, content };
    files.push(f);
    assert(workspace::staged_views(files@) =~= seq![f@]);
    files
}

/// Two files.
fn moved_files(to: String, content: Vec<u8>, from: String) -> (r: Vec<StagedFile>)
    ensures
        workspace::staged_views(r@) == seq![file_is(to@, content@), file_gone(from@)],
{
    let mut files: Vec<StagedFile> = Vec::new();
    let f = StagedFile { path: to, content: Some(content) };
    let g = StagedFile { path: from, content: None };
    files.push(f);
    files.push(g);
    assert(workspace::staged_views(files@) =~= seq![f@, g@]);
    files
}

/// The message of a change in the number of lines.
fn say_lines(before: usize, after: usize) -> (r: String)
    ensures
        r@ == lines_message(before as int, after as int),
{
    let mut m = cat3(decimal_of(before).as_str(), " → ", decimal_of(after).as_str());
    m.append(" lines");
    m
}

/// A new file.
fn create_file(full: String, content: &str) -> (r: Change)
    ensures
        r@ == created(full@, content@),
{
    let lines = lines_of(content);
    let n: usize = lines.len();
    assert(n == text::lines(content@).len());
    let diff = generate_add_diff(full.as_str(), &lines);
    let c = Change {
        files: one_file(full, Some(encode(content))),
        status: OpStatus::Success,
        message: "File created".to_owned(),
        diff,
        line_changes: Some((0, n)),
        match_info: None,
    };
    assert(c@ =~~= created(full@, content@));
    c
}

/// Stages a file that must not be there yet.
fn stage_add(session: &PatchSession, path: &str, content: &str) -> (r: Result<Change, PatchError>)
    ensures
        is_changed(r, add_change(session@, path@, content@)),
{
    let found = session.resolve_path(path);
    match session.see(found.full_path.as_str()) {
        Sight::Missing => Ok(create_file(found.full_path, content)),
        _ => Err(PatchError::FileAlreadyExists(found.shown_path)),
    }
}

/// A file that is replaced by a text.
fn replace_file(full: String, path: &str, old_bytes: Vec<u8>, content: &str) -> (r: Change)
    ensures
        r@ == replaced(full@, path@, old_bytes@, content@),
{
    let after: usize = lines_of(content).len();
    assert(after == text::lines(content@).len());
    let (before, diff): (usize, Option<String>) = match decode(old_bytes) {
        Ok(t) => {
            let old_text = unix_newlines(t.as_str());
            let n: usize = lines_of(old_text.as_str()).len();
            assert(n == text::lines(old_text@).len());
            (n, generate_unified_diff(old_text.as_str(), content, path))
        },
        Err(_) => {
            assert(text::lines(Seq::empty()).len() == 0);
            (0, None)
        },
    };
    let c = Change {
        files: one_file(full, Some(encode(content))),
        status: OpStatus::Success,
        message: say_lines(before, after),
        diff,
        line_changes: Some((before, after)),
        match_info: None,
    };
    assert(c@ =~~= replaced(full@, path@, old_bytes@, content@));
    c
}

/// Stages a file that may be there already.
fn stage_write(session: &PatchSession, path: &str, content: &str) -> (r: Result<
    Change,
    PatchError,
>)
    ensures
        is_changed(r, write_change(session@, path@, content@)),
{
    match session.resolve_virtual_kind(path) {
        Err(e) => Err(e),
        Ok((found, kind)) => match kind {
            VirtualPathKind::Missing => Ok(create_file(found.full_path, content)),
            VirtualPathKind::Directory => Err(PatchError::Io("Not a regular file".to_owned())),
            VirtualPathKind::File => {
                match session.read_virtual_bytes_at(found.full_path.as_str()) {
                    Some((old_bytes, _)) => Ok(
                        replace_file(found.full_path, path, old_bytes, content),
                    ),
                    None => Err(PatchError::Io("Not a regular file".to_owned())),
                }
            },
        },
    }
}

/// The text of a file, with its line ends made uniform.
fn read_text(session: &PatchSession, path: &str) -> (r: Result<String, PatchError>)
    ensures
        match r {
            Ok(t) => file_text(session@, path@) == Ok::<Seq<char>, error::PatchErrorView>(t@),
            Err(e) => file_text(session@, path@) == Err::<Seq<char>, error::PatchErrorView>(e@),
        },
{
    let full = session.resolve_path(path).full_path;
    if let Some(m) = session.directory_problem(full.as_str()) {
        return Err(PatchError::Io(m));
    }
    match session.read_virtual_file(path) {
        Err(e) => Err(e),
        Ok(f) => match decode(f.bytes) {
            Ok(t) => Ok(unix_newlines(t.as_str())),
            Err(_) => Err(PatchError::Io("stream did not contain valid UTF-8".to_owned())),
        },
    }
}

/// Stages a file that goes.
fn stage_delete(session: &PatchSession, path: &str) -> (r: Result<Change, PatchError>)
    ensures
        is_changed(r, delete_change(session@, path@)),
{
    let found = match session.resolve_virtual_kind(path) {
        Err(e) => {
            return Err(e);
        },
        Ok((found, kind)) => {
            if let VirtualPathKind::Missing = kind {
                let c = Change {
                    files: Vec::new(),
                    status: OpStatus::Skipped,
                    message: "File does not exist".to_owned(),
                    diff: None,
                    line_changes: None,
                    match_info: None,
                };
                assert(c@.files =~= Seq::empty());
                return Ok(c);
            }
            found
        },
    };
    match read_text(session, path) {
        Err(e) => Err(e),
        Ok(t) => {
            let n: usize = lines_of(t.as_str()).len();
            assert(n == text::lines(t@).len());
            let c = Change {
                files: one_file(found.full_path, None),
                status: OpStatus::Success,
                message: cat3("removed ", decimal_of(n).as_str(), " lines"),
                diff: None,
                line_changes: Some((n, 0)),
                match_info: None,
            };
            assert(Ok::<ChangeView, error::PatchErrorView>(c@) == delete_change(session@, path@))
                by {
                assert(c@ =~~= delete_change(session@, path@)->Ok_0);
            }
            Ok(c)
        },
    }
}

/// The files after an update.
fn place_update(
    session: &PatchSession,
    path: &str,
    move_to: &Option<String>,
    content: Vec<u8>,
) -> (r: Result<Vec<StagedFile>, PatchError>)
    ensures
        match r {
            Ok(files) => update_files(
                session@,
                path@,
                lists::opt_text(*move_to),
                content@,
            ) == Ok::<Seq<workspace::StagedView>, error::PatchErrorView>(
                workspace::staged_views(files@),
            ),
            Err(e) => update_files(session@, path@, lists::opt_text(*move_to), content@) == Err::<
                    Seq<workspace::StagedView>,
                    error::PatchErrorView,
                >(e@),
        },
{
    let full = session.resolve_path(path).full_path;
    match move_to {
        None => Ok(one_file(full, Some(content))),
        Some(dest) => {
            let dest_full = session.resolve_path(dest.as_str()).full_path;
            if same_text(dest_full.as_str(), full.as_str()) {
                return Ok(one_file(full, Some(content)));
            }
            match session.resolve_virtual_kind(dest.as_str()) {
                Err(e) => Err(e),
                Ok((_, kind)) => match kind {
                    VirtualPathKind::Directory => Err(
                        PatchError::Io("Not a regular file".to_owned()),
                    ),
                    _ => Ok(moved_files(dest_full, content, full)),
                },
            }
        },
    }
}

/// Stages a file that is changed by hunks, and may be renamed.
fn stage_update(
    session: &PatchSession,
    path: &str,
    list: &Vec<Hunk>,
    move_to: &Option<String>,
) -> (r: Result<Change, PatchError>)
    requires
        workspace::session_wf(session@),
    ensures
        is_changed(
            r,
            update_change(
                session@,
                path@,
                patch::hunk_views(list@),
                lists::opt_text(*move_to),
            ),
        ),
{
    let before = match read_text(session, path) {
        Err(e) => {
            return Err(e);
        },
        Ok(t) => t,
    };
    let lines = lines_of(before.as_str());
    let old_count: usize = lines.len();
    assert(old_count == text::lines(before@).len());
    match apply_hunks(lines, list, path, session.threshold()) {
        Err(e) => Err(e),
        Ok((new_lines, results)) => {
            let new_count: usize = new_lines.len();
            assert(new_count == lists::texts(new_lines@).len());
            let after = joined_lines(before.as_str(), &new_lines);
            match place_update(session, path, move_to, encode(after.as_str())) {
                Err(e) => Err(e),
                Ok(files) => {
                    let message = match move_to {
                        Some(dest) => cat2("File updated and moved to ", dest.as_str()),
                        None => say_lines(old_count, new_count),
                    };
                    Ok(
                        Change {
                            files,
                            status: OpStatus::Success,
                            message,
                            diff: generate_unified_diff(before.as_str(), after.as_str(), path),
                            line_changes: Some((old_count, new_count)),
                            match_info: build_match_info(&results),
                        },
                    )
                },
            }
        },
    }
}

/// Stages a file that is renamed.
fn stage_move(session: &PatchSession, from: &str, to: &str) -> (r: Result<Change, PatchError>)
    ensures
        is_changed(r, move_change(session@, from@, to@)),
{
    let full = session.resolve_path(from).full_path;
    match session.read_virtual_file(from) {
        Err(e) => Err(e),
        Ok(f) => match session.resolve_virtual_kind(to) {
            Err(e) => Err(e),
            Ok((found, kind)) => match kind {
                VirtualPathKind::Missing => Ok(
                    Change {
                        files: moved_files(found.full_path, f.bytes, full),
                        status: OpStatus::Success,
                        message: cat2("File moved to ", to),
                        diff: None,
                        line_changes: None,
                        match_info: None,
                    },
                ),
                _ => Err(PatchError::FileAlreadyExists(found.shown_path)),
            },
        },
    }
}

/// What an operation does to the files.
pub fn plan_change(session: &PatchSession, op: &FileOp) -> (r: Result<Change, PatchError>)
    requires
        workspace::session_wf(session@),
    ensures
        match r {
            Ok(c) => change(session@, op@) == Ok::<ChangeView, error::PatchErrorView>(c@),
            Err(e) => change(session@, op@) == Err::<ChangeView, error::PatchErrorView>(e@),
        },
{
    match op {
        FileOp::Add { path, content } => stage_add(session, path.as_str(), content.as_str()),
        FileOp::Write { path, content } => stage_write(session, path.as_str(), content.as_str()),
        FileOp::Delete { path } => stage_delete(session, path.as_str()),
        FileOp::Update { path, hunks, move_to } => stage_update(
            session,
            path.as_str(),
            hunks,
            move_to,
        ),
        FileOp::Move { from, to } => stage_move(session, from.as_str(), to.as_str()),
        FileOp::Read { .. } | FileOp::MapDir { .. } => {
            let c = Change {
                files: Vec::new(),
                status: OpStatus::Success,
                message: String::new(),
                diff: None,
                line_changes: None,
                match_info: None,
            };
            assert(c@ =~~= no_change());
            Ok(c)
        },
    }
}

/// Stages the files of a change.
fn stage_files(session: &mut PatchSession, files: Vec<StagedFile>)
    requires
        workspace::session_wf(old(session)@),
    ensures
        workspace::session_wf(final(session)@),
        final(session)@ == workspace::with_staged(
            old(session)@,
            put_files(
                old(session)@.staged,
                workspace::staged_views(files@),
                files@.len() as int,
            ),
        ),
{
    let ghost before = session@;
    let ghost views = workspace::staged_views(files@);
    let mut i: usize = 0;
    assert(session@ =~= workspace::with_staged(before, before.staged));
    while i < files.len()
        invariant
            0 <= i <= files@.len(),
            views == workspace::staged_views(files@),
            workspace::session_wf(session@),
            session@ == workspace::with_staged(
                before,
                put_files(before.staged, views, i as int),
            ),
        decreases files@.len() - i,
    {
        let f = &files[i];
        assert(views[i as int] == f@);
        let content = match &f.content {
            Some(b) => Some(copy_bytes(b)),
            None => None,
        };
        session.stage(f.path.clone(), content);
        i += 1;
    }
}

/// Carries out an operation that changes files, on what is staged.
pub fn stage_op(session: &mut PatchSession, op: &FileOp, batch: Option<(usize, usize)>) -> (r:
    OpResult)
    requires
        workspace::session_wf(old(session)@),
        mutates(op@),
    ensures
        workspace::session_wf(final(session)@),
        final(session)@ == after_change(old(session)@, op@),
        r@ == change_result(old(session)@, op@, batch),
{
    let (op_type, path) = name_op(op);
    let source = session.resolve_path(path).source;
    match plan_change(session, op) {
        Ok(c) => {
            let mut r = make_op(path, op_type, c.status, c.message.as_str(), batch);
            r.diff = c.diff;
            r.line_changes = c.line_changes;
            r.match_info = c.match_info;
            r.path_source = Some(source);
            assert(r@ =~~= change_result(old(session)@, op@, batch));
            stage_files(session, c.files);
            r
        },
        Err(e) => with_path_source(make_error_op(path, op_type, &e, batch), source),
    }
}

// ---------------------------------------------------------------------------
// Operations that look
// ---------------------------------------------------------------------------

/// How an operation ends that only looks at what a path is.
pub open spec fn look_outcome(op: patch::FileOpView, node: Option<workspace::NodeView>) -> (
    OpStatus,
    Seq<char>,
) {
    if op is MapDir {
        match node {
            None => (OpStatus::FatalError, "Directory not found"@),
            Some(workspace::NodeView::Directory(_)) => (OpStatus::Success, ""@),
            Some(workspace::NodeView::ClosedDirectory(_)) => (OpStatus::Success, ""@),
            _ => (OpStatus::FatalError, "Path is not a directory"@),
        }
    } else {
        match node {
            None => (OpStatus::FatalError, "File not found"@),
            Some(workspace::NodeView::File(_)) => (OpStatus::Success, "File read successfully"@),
            Some(workspace::NodeView::Symlink) => (OpStatus::FatalError, "Symlink rejected"@),
            Some(workspace::NodeView::Unreadable(m)) => (OpStatus::FatalError, "IO error: "@ + m),
            _ => (OpStatus::FatalError, "Not a regular file"@),
        }
    }
}

/// The result of an operation that only looks.
pub open spec fn look_result(s: workspace::SessionView, op: patch::FileOpView) -> outcome::OpResultView {
    let (op_type, path) = op_name(op);
    let (status, message) = look_outcome(
        op,
        workspace::virtual_node(s, workspace::full_path(s, path)),
    );
    outcome::plain_result(path, op_type, status, message, None)
}

/// Looks at the path of an operation that changes nothing.
fn look_op(session: &PatchSession, op: &FileOp) -> (r: OpResult)
    requires
        !mutates(op@),
    ensures
        r@ == look_result(session@, op@),
{
    let (op_type, path) = name_op(op);
    let full = session.resolve_path(path).full_path;
    let seen = session.see(full.as_str());
    if let FileOp::MapDir { .. } = op {
        match seen {
            Sight::Missing => make_op(
                path,
                op_type,
                OpStatus::FatalError,
                "Directory not found",
                None,
            ),
            Sight::Directory => make_op(path, op_type, OpStatus::Success, "", None),
            _ => make_op(path, op_type, OpStatus::FatalError, "Path is not a directory", None),
        }
    } else {
        match seen {
            Sight::Missing => make_op(path, op_type, OpStatus::FatalError, "File not found", None),
            Sight::File => make_op(
                path,
                op_type,
                OpStatus::Success,
                "File read successfully",
                None,
            ),
            Sight::Symlink => make_op(
                path,
                op_type,
                OpStatus::FatalError,
                "Symlink rejected",
                None,
            ),
            Sight::Unreadable(m) => make_op(
                path,
                op_type,
                OpStatus::FatalError,
                cat2("IO error: ", m.as_str()).as_str(),
                None,
            ),
            _ => make_op(path, op_type, OpStatus::FatalError, "Not a regular file", None),
        }
    }
}

// ---------------------------------------------------------------------------
// Conflicts
// ---------------------------------------------------------------------------

/// Whether an operation creates the file of a path.
pub open spec fn adds(op: patch::FileOpView, path: Seq<char>) -> bool {
    op is Add && op_name(op).1 == path
}

/// Whether an operation updates the file of a path.
pub open spec fn updates(op: patch::FileOpView, path: Seq<char>) -> bool {
    op is Update && op_name(op).1 == path
}

/// Whether a path is created and updated.
pub open spec fn in_conflict(ops: Seq<patch::FileOpView>, path: Seq<char>) -> bool {
    &&& exists|i: int| 0 <= i < ops.len() && adds(#[trigger] ops[i], path)
    &&& exists|i: int| 0 <= i < ops.len() && updates(#[trigger] ops[i], path)
}

/// The path of the first operation from `from` on whose path is created and updated.
pub open spec fn conflict_from(ops: Seq<patch::FileOpView>, from: int) -> Option<Seq<char>>
    decreases ops.len() - from,
{
    if from < 0 || from >= ops.len() {
        None
    } else if in_conflict(ops, op_name(ops[from]).1) {
        Some(op_name(ops[from]).1)
    } else {
        conflict_from(ops, from + 1)
    }
}

/// What is said of a path that is created and updated.
pub open spec fn conflict_message() -> Seq<char> {
    "Cannot Add and Update the same file in one patch"@
}

/// Whether a path is created and updated.
fn conflicts(ops: &Vec<FileOp>, path: &str) -> (r: bool)
    ensures
        r == in_conflict(patch::op_views(ops@), path@),
{
    let ghost views = patch::op_views(ops@);
    let mut added = false;
    let mut updated = false;
    let mut i: usize = 0;
    while i < ops.len()
        invariant
            0 <= i <= ops@.len(),
            views == patch::op_views(ops@),
            added == (exists|j: int| 0 <= j < i && adds(#[trigger] views[j], path@)),
            updated == (exists|j: int| 0 <= j < i && updates(#[trigger] views[j], path@)),
        decreases ops@.len() - i,
    {
        let op = &ops[i];
        assert(views[i as int] == op@);
        let same = same_text(name_op(op).1, path);
        match op {
            FileOp::Add { .. } => {
                if same {
                    assert(adds(views[i as int], path@));
                    added = true;
                }
            },
            FileOp::Update { .. } => {
                if same {
                    assert(updates(views[i as int], path@));
                    updated = true;
                }
            },
            _ => {},
        }
        i += 1;
    }
    added && updated
}

/// Whether a patch creates and updates the same file; the path of the first such file, and
/// what is said of it.
pub fn detect_file_conflicts(ops: &Vec<FileOp>) -> (r: Result<(), (String, String)>)
    ensures
        match r {
            Ok(_) => conflict_from(patch::op_views(ops@), 0) is None,
            Err(c) => conflict_from(patch::op_views(ops@), 0) == Some(c.0@) && c.1@
                == conflict_message(),
        },
{
    let ghost views = patch::op_views(ops@);
    let mut i: usize = 0;
    while i < ops.len()
        invariant
            0 <= i <= ops@.len(),
            views == patch::op_views(ops@),
            conflict_from(views, 0) == conflict_from(views, i as int),
        decreases ops@.len() - i,
    {
        assert(views[i as int] == ops@[i as int]@);
        let path = name_op(&ops[i]).1;
        if conflicts(ops, path) {
            return Err(
                (
                    path.to_owned(),
                    "Cannot Add and Update the same file in one patch".to_owned(),
                ),
            );
        }
        i += 1;
    }
    Ok(())
}

/// The result of an operation of a patch that creates and updates the file of `path`.
pub open spec fn conflict_result(op: patch::FileOpView, path: Seq<char>) -> outcome::OpResultView {
    let (op_type, op_path) = op_name(op);
    if op_path == path {
        outcome::plain_result(op_path, op_type, OpStatus::FatalError, conflict_message(), None)
    } else {
        outcome::plain_result(
            op_path,
            op_type,
            OpStatus::Skipped,
            "Skipped due to conflict"@,
            None,
        )
    }
}

// ---------------------------------------------------------------------------
// Patches
// ---------------------------------------------------------------------------

/// The session after an operation, and the result of the operation.
pub open spec fn step(s: workspace::SessionView, op: patch::FileOpView) -> (
    workspace::SessionView,
    outcome::OpResultView,
) {
    if mutates(op) {
        (after_change(s, op), change_result(s, op, None))
    } else {
        (s, look_result(s, op))
    }
}

/// The session after the first `k` operations, and their results.
pub open spec fn steps(s: workspace::SessionView, ops: Seq<patch::FileOpView>, k: int) -> (
    workspace::SessionView,
    Seq<outcome::OpResultView>,
)
    decreases k,
{
    if k <= 0 {
        (s, Seq::empty())
    } else {
        let (t, results) = steps(s, ops, k - 1);
        let (u, r) = step(t, ops[k - 1]);
        (u, results.push(r))
    }
}

/// The session after a patch, and the results of its operations.
pub open spec fn applied(s: workspace::SessionView, ops: Seq<patch::FileOpView>) -> (
    workspace::SessionView,
    Seq<outcome::OpResultView>,
) {
    match conflict_from(ops, 0) {
        Some(path) => (
            s,
            ops.map_values(|op: patch::FileOpView| conflict_result(op, path)),
        ),
        None => steps(s, ops, ops.len() as int),
    }
}

/// Carries out a patch, in the order of its operations, on what is staged. A patch that
/// creates and updates the same file is refused. Every other operation is tried, though an
/// earlier one failed.
pub fn apply_patch(session: &mut PatchSession, ops: &Vec<FileOp>) -> (r: PatchResult)
    requires
        workspace::session_wf(old(session)@),
    ensures
        workspace::session_wf(final(session)@),
        (final(session)@, outcome::result_views(r.operations@)) == applied(
            old(session)@,
            patch::op_views(ops@),
        ),
{
    let ghost views = patch::op_views(ops@);
    let ghost before = session@;
    let mut operations: Vec<OpResult> = Vec::new();
    let mut i: usize = 0;
    assert(outcome::result_views(operations@) =~= Seq::empty());
    match detect_file_conflicts(ops) {
        Err((path, message)) => {
            let ghost all = views.map_values(|op: patch::FileOpView| conflict_result(op, path@));
            while i < ops.len()
                invariant
                    0 <= i <= ops@.len(),
                    views == patch::op_views(ops@),
                    message@ == conflict_message(),
                    all == views.map_values(|op: patch::FileOpView| conflict_result(op, path@)),
                    outcome::result_views(operations@) == all.take(i as int),
                decreases ops@.len() - i,
            {
                assert(views[i as int] == ops@[i as int]@);
                let (op_type, op_path) = name_op(&ops[i]);
                let r = if same_text(op_path, path.as_str()) {
                    make_op(op_path, op_type, OpStatus::FatalError, message.as_str(), None)
                } else {
                    make_op(op_path, op_type, OpStatus::Skipped, "Skipped due to conflict", None)
                };
                operations.push(r);
                i += 1;
                assert(outcome::result_views(operations@) =~= all.take(i as int));
            }
            assert(all.take(i as int) =~= all);
        },
        Ok(_) => {
            while i < ops.len()
                invariant
                    0 <= i <= ops@.len(),
                    views == patch::op_views(ops@),
                    workspace::session_wf(session@),
                    (session@, outcome::result_views(operations@)) == steps(
                        before,
                        views,
                        i as int,
                    ),
                decreases ops@.len() - i,
            {
                let op = &ops[i];
                assert(views[i as int] == op@);
                let r = match op {
                    FileOp::Read { .. } | FileOp::MapDir { .. } => look_op(session, op),
                    _ => stage_op(session, op, None),
                };
                operations.push(r);
                i += 1;
            }
        },
    }
    PatchResult { operations }
}

/// Whether some result is a failure.
pub open spec fn any_failed(results: Seq<outcome::OpResultView>) -> bool {
    exists|i: int| 0 <= i < results.len() && outcome::failed((#[trigger] results[i]).status)
}

/// Whether some result is a failure.
pub fn has_failure(operations: &Vec<OpResult>) -> (r: bool)
    ensures
        r == any_failed(outcome::result_views(operations@)),
{
    let ghost views = outcome::result_views(operations@);
    let mut i: usize = 0;
    while i < operations.len()
        invariant
            0 <= i <= operations@.len(),
            views == outcome::result_views(operations@),
            forall|j: int| 0 <= j < i ==> !outcome::failed((#[trigger] views[j]).status),
        decreases operations@.len() - i,
    {
        assert(views[i as int] == operations@[i as int]@);
        if operations[i].status.is_error() {
            return true;
        }
        i += 1;
    }
    false
}

/// What is to be written of what a session has staged: all of it where every operation went
/// well, else nothing.
pub open spec fn to_commit(
    staged: Seq<workspace::StagedView>,
    results: Seq<outcome::OpResultView>,
) -> Seq<workspace::StagedView> {
    if any_failed(results) {
        Seq::empty()
    } else {
        staged
    }
}

/// A copy of the files.
pub fn copy_files(files: &Vec<StagedFile>) -> (r: Vec<StagedFile>)
    ensures
        workspace::staged_views(r@) == workspace::staged_views(files@),
{
    let ghost views = workspace::staged_views(files@);
    let mut out: Vec<StagedFile> = Vec::new();
    let mut i: usize = 0;
    while i < files.len()
        invariant
            0 <= i <= files@.len(),
            views == workspace::staged_views(files@),
            workspace::staged_views(out@) == views.take(i as int),
        decreases files@.len() - i,
    {
        let f = &files[i];
        let content = match &f.content {
            Some(b) => Some(copy_bytes(b)),
            None => None,
        };
        let copy = StagedFile { path: f.path.clone(), content };
        let ghost before = out@;
        assert(copy@ == views[i as int]);
        out.push(copy);
        assert(workspace::staged_views(out@) =~= workspace::staged_views(before).push(copy@));
        i += 1;
        assert(workspace::staged_views(out@) =~= views.take(i as int));
    }
    assert(views.take(i as int) =~= views);
    out
}

/// What is to be written after a patch.
pub fn files_to_commit(session: &PatchSession, result: &PatchResult) -> (r: Vec<StagedFile>)
    ensures
        workspace::staged_views(r@) == to_commit(
            session@.staged,
            outcome::result_views(result.operations@),
        ),
{
    if has_failure(&result.operations) {
        let none: Vec<StagedFile> = Vec::new();
        assert(workspace::staged_views(none@) =~= Seq::empty());
        none
    } else {
        copy_files(session.staged_files())
    }
}

/// A result after the files could not be written.
pub open spec fn not_committed(r: outcome::OpResultView, problem: Seq<char>) -> outcome::OpResultView {
    if outcome::done(r.status) {
        outcome::OpResultView {
            status: OpStatus::FatalError,
            message: "Commit failed: "@ + problem,
            ..r
        }
    } else {
        r
    }
}

/// The results after the files could not be written: no operation succeeded.
pub fn mark_commit_failed(result: PatchResult, problem: &str) -> (r: PatchResult)
    ensures
        outcome::result_views(r.operations@) == outcome::result_views(
            result.operations@,
        ).map_values(|o: outcome::OpResultView| not_committed(o, problem@)),
{
    let ghost before = outcome::result_views(result.operations@);
    let ghost all = before.map_values(|o: outcome::OpResultView| not_committed(o, problem@));
    let message = cat2("Commit failed: ", problem);
    let mut operations = result.operations;
    let mut i: usize = 0;
    while i < operations.len()
        invariant
            0 <= i <= operations@.len() == before.len(),
            message@ == "Commit failed: "@ + problem@,
            all == before.map_values(|o: outcome::OpResultView| not_committed(o, problem@)),
            forall|j: int| 0 <= j < i ==> (#[trigger] operations@[j])@ == all[j],
            forall|j: int| i <= j < before.len() ==> (#[trigger] operations@[j])@ == before[j],
        decreases before.len() - i,
    {
        if operations[i].status.is_done() {
            operations[i].status = OpStatus::FatalError;
            operations[i].message = message.clone();
            assert(operations@[i as int]@ =~~= all[i as int]);
        } else {
            assert(all[i as int] == before[i as int]);
        }
        i += 1;
    }
    assert(outcome::result_views(operations@) =~= all);
    PatchResult { operations }
}

} // verus!
