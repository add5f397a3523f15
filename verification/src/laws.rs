//! What holds of sessions and batches as a whole.

use vstd::prelude::*;

use crate::applier;
use crate::batch;
use crate::bytes;
use crate::error;
use crate::hunks;
use crate::newlines;
use crate::outcome;
use crate::parser;
use crate::patch;
use crate::paths;
use crate::reading;
use crate::server;
use crate::sizes;
use crate::text;
use crate::transaction;
use crate::workspace;
use crate::workspace::VirtualPathKind;

verus! {

// ---------------------------------------------------------------------------
// Single operations
// ---------------------------------------------------------------------------

/// An operation that fails leaves the session as it was.
pub proof fn law_failure_changes_nothing(s: workspace::SessionView, op: patch::FileOpView)
    requires
        applier::change(s, op) is Err,
    ensures
        applier::after_change(s, op) == s,
{
}

/// An operation that reads or maps leaves the session as it was.
pub proof fn law_reading_changes_nothing(s: workspace::SessionView, op: patch::FileOpView)
    requires
        !applier::mutates(op),
    ensures
        applier::after_change(s, op) == s,
{
    assert(applier::put_files(s.staged, Seq::empty(), 0) == s.staged);
    assert(applier::after_change(s, op) =~= s);
}

/// An operation fails exactly where its result says so.
pub proof fn law_status_tells_failure(
    s: workspace::SessionView,
    op: patch::FileOpView,
    batch_place: Option<(usize, usize)>,
)
    ensures
        outcome::failed(applier::change_result(s, op, batch_place).status) <==> applier::change(
            s,
            op,
        ) is Err,
{
}

/// What is staged for one file, and then seen.
proof fn lemma_one_file(s: workspace::SessionView, path: Seq<char>, content: Seq<u8>)
    requires
        workspace::session_wf(s),
    ensures
        ({
            let full = workspace::full_path(s, path);
            let files = seq![applier::file_is(full, content)];
            let t = workspace::with_staged(s, applier::put_files(s.staged, files, 1));
            &&& workspace::full_path(t, path) == full
            &&& workspace::path_source(t, path) == workspace::path_source(s, path)
            &&& workspace::staged_at(t.staged, full) == Some(Some(content))
            &&& workspace::file_bytes(t, path) == Ok::<Seq<u8>, error::PatchErrorView>(content)
        }),
{
    let full = workspace::full_path(s, path);
    let files = seq![applier::file_is(full, content)];
    reveal_with_fuel(applier::put_files, 2);
    assert(applier::put_files(s.staged, files, 1) == workspace::put(
        s.staged,
        full,
        Some(content),
    ));
    workspace::lemma_put(s.staged, full, Some(content), full);
}

/// A file that is staged is read as it is staged, whatever is on the disk.
pub proof fn law_staged_is_read(
    s: workspace::SessionView,
    request: parser::ReadView,
    content: Seq<char>,
    batch_place: Option<(usize, usize)>,
)
    requires
        workspace::staged_at(s.staged, workspace::full_path(s, request.path)) == Some(
            Some(bytes::encoded(content)),
        ),
        !bytes::binary(bytes::encoded(content)),
    ensures
        ({
            let source = workspace::path_source(s, request.path);
            let shown = reading::shown_text(request, content);
            let r = reading::read_result(s, request, batch_place);
            &&& r.status is Success
            &&& r.output == Some(reading::read_output(request.path, source, true, shown))
        }),
{
    bytes::law_decode_of_encode(content);
}

/// A file that was written is read with what was written, though nothing is on the disk yet.
pub proof fn law_write_then_read(
    s: workspace::SessionView,
    path: Seq<char>,
    content: Seq<char>,
)
    requires
        workspace::session_wf(s),
        applier::change(s, patch::FileOpView::Write { path, content }) is Ok,
    ensures
        ({
            let t = applier::after_change(s, patch::FileOpView::Write { path, content });
            &&& t.disk == s.disk
            &&& workspace::staged_at(t.staged, workspace::full_path(t, path)) == Some(
                Some(bytes::encoded(content)),
            )
            &&& workspace::file_bytes(t, path) == Ok::<Seq<u8>, error::PatchErrorView>(
                bytes::encoded(content),
            )
            &&& applier::file_text(t, path) == Ok::<Seq<char>, error::PatchErrorView>(
                newlines::unix(content),
            )
        }),
{
    bytes::law_decode_of_encode(content);
    lemma_one_file(s, path, bytes::encoded(content));
}

/// A file that was created is read with what was written.
pub proof fn law_create_then_read(
    s: workspace::SessionView,
    path: Seq<char>,
    content: Seq<char>,
)
    requires
        workspace::session_wf(s),
        applier::change(s, patch::FileOpView::Add { path, content }) is Ok,
    ensures
        ({
            let t = applier::after_change(s, patch::FileOpView::Add { path, content });
            &&& t.disk == s.disk
            &&& workspace::path_kind(s, path) == Ok::<VirtualPathKind, error::PatchErrorView>(
                VirtualPathKind::Missing,
            )
            &&& workspace::staged_at(t.staged, workspace::full_path(t, path)) == Some(
                Some(bytes::encoded(content)),
            )
            &&& workspace::file_bytes(t, path) == Ok::<Seq<u8>, error::PatchErrorView>(
                bytes::encoded(content),
            )
        }),
{
    lemma_one_file(s, path, bytes::encoded(content));
}

/// A file cannot be created twice.
pub proof fn law_create_once(
    s: workspace::SessionView,
    path: Seq<char>,
    content: Seq<char>,
    other: Seq<char>,
)
    requires
        workspace::session_wf(s),
        applier::change(s, patch::FileOpView::Add { path, content }) is Ok,
    ensures
        applier::change(
            applier::after_change(s, patch::FileOpView::Add { path, content }),
            patch::FileOpView::Add { path, content: other },
        ) == Err::<applier::ChangeView, error::PatchErrorView>(
            error::PatchErrorView::FileAlreadyExists(workspace::shown_path(s, path)),
        ),
{
    lemma_one_file(s, path, bytes::encoded(content));
}

/// A file that was updated is read with its hunks applied.
pub proof fn law_update_then_read(
    s: workspace::SessionView,
    path: Seq<char>,
    list: Seq<patch::HunkView>,
)
    requires
        workspace::session_wf(s),
        applier::update_change(s, path, list, None) is Ok,
    ensures
        ({
            let t = applier::after_change(
                s,
                patch::FileOpView::Update { path, hunks: list, move_to: None },
            );
            let before = applier::file_text(s, path)->Ok_0;
            let lines = hunks::hunks_outcome(
                text::lines(before),
                list,
                path,
                s.threshold,
                list.len() as int,
            )->Ok_0.0;
            let after = bytes::encoded(hunks::text_of_lines(before, lines));
            &&& t.disk == s.disk
            &&& workspace::staged_at(t.staged, workspace::full_path(t, path)) == Some(Some(after))
            &&& workspace::file_bytes(t, path) == Ok::<Seq<u8>, error::PatchErrorView>(after)
        }),
{
    let before = applier::file_text(s, path)->Ok_0;
    let lines = hunks::hunks_outcome(
        text::lines(before),
        list,
        path,
        s.threshold,
        list.len() as int,
    )->Ok_0.0;
    lemma_one_file(s, path, bytes::encoded(hunks::text_of_lines(before, lines)));
}

/// A file that was deleted is not there, unless a staged file makes its path a directory.
pub proof fn law_deleted_is_missing(s: workspace::SessionView, path: Seq<char>)
    requires
        workspace::session_wf(s),
        applier::change(s, patch::FileOpView::Delete { path }) is Ok,
        !workspace::implied_directory(s.staged, workspace::full_path(s, path)),
    ensures
        workspace::path_kind(
            applier::after_change(s, patch::FileOpView::Delete { path }),
            path,
        ) == Ok::<VirtualPathKind, error::PatchErrorView>(VirtualPathKind::Missing),
{
    let full = workspace::full_path(s, path);
    let c = applier::change(s, patch::FileOpView::Delete { path })->Ok_0;
    if c.status is Skipped {
        assert(applier::put_files(s.staged, Seq::empty(), 0) == s.staged);
        assert(applier::after_change(s, patch::FileOpView::Delete { path }) =~= s);
    } else {
        reveal_with_fuel(applier::put_files, 2);
        let new = workspace::put(s.staged, full, None);
        workspace::lemma_put(s.staged, full, None, full);
        assert(applier::put_files(s.staged, seq![applier::file_gone(full)], 1) == new);
        if workspace::implied_directory(new, full) {
            lemma_gone_implies_nothing(s.staged, full);
        }
    }
}

/// A file that goes makes no path a directory.
proof fn lemma_gone_implies_nothing(staged: Seq<workspace::StagedView>, full: Seq<char>)
    requires
        workspace::implied_directory(workspace::put(staged, full, None), full),
    ensures
        workspace::implied_directory(staged, full),
{
    let new = workspace::put(staged, full, None);
    workspace::lemma_staged_index(staged, full, 0);
    let i = choose|i: int|
        0 <= i < new.len() && (#[trigger] new[i]).content is Some && paths::below(
            full,
            new[i].path,
        ) is Some;
    let k = workspace::staged_index(staged, full, 0);
    if i != k {
        assert(new[i] == staged[i]);
    }
}

/// A file that went, after another was put elsewhere.
proof fn lemma_moved(s: workspace::SessionView, from: Seq<char>, to: Seq<char>, content: Seq<u8>)
    requires
        workspace::full_path(s, from) != workspace::full_path(s, to),
    ensures
        ({
            let full = workspace::full_path(s, from);
            let dest = workspace::full_path(s, to);
            let files = seq![applier::file_is(dest, content), applier::file_gone(full)];
            let t = workspace::with_staged(s, applier::put_files(s.staged, files, 2));
            &&& workspace::full_path(t, from) == full
            &&& workspace::full_path(t, to) == dest
            &&& workspace::staged_at(t.staged, full) == Some(None::<Seq<u8>>)
            &&& workspace::staged_at(t.staged, dest) == Some(Some(content))
        }),
{
    let full = workspace::full_path(s, from);
    let dest = workspace::full_path(s, to);
    let files = seq![applier::file_is(dest, content), applier::file_gone(full)];
    reveal_with_fuel(applier::put_files, 3);
    let first = workspace::put(s.staged, dest, Some(content));
    workspace::lemma_put(s.staged, dest, Some(content), dest);
    workspace::lemma_put(first, full, None, dest);
    workspace::lemma_put(first, full, None, full);
    assert(applier::put_files(s.staged, files, 2) == workspace::put(first, full, None));
}

/// A file that was moved is at its new place with its bytes, and not at its old place, unless
/// that has become a directory.
pub proof fn law_moved_is_there(s: workspace::SessionView, from: Seq<char>, to: Seq<char>)
    requires
        workspace::session_wf(s),
        applier::change(s, patch::FileOpView::Move { from, to }) is Ok,
    ensures
        ({
            let t = applier::after_change(s, patch::FileOpView::Move { from, to });
            &&& t.disk == s.disk
            &&& workspace::file_bytes(t, to) == workspace::file_bytes(s, from)
            &&& !workspace::implied_directory(t.staged, workspace::full_path(t, from))
                ==> workspace::path_kind(t, from) == Ok::<VirtualPathKind, error::PatchErrorView>(
                VirtualPathKind::Missing,
            )
        }),
{
    let content = workspace::file_bytes(s, from)->Ok_0;
    assert(workspace::full_path(s, from) != workspace::full_path(s, to)) by {
        assert(workspace::path_kind(s, to) == Ok::<VirtualPathKind, error::PatchErrorView>(
            VirtualPathKind::Missing,
        ));
    }
    lemma_moved(s, from, to, content);
}

/// A file that was updated and renamed is at its new place with its hunks applied, and not at
/// its old place, unless that has become a directory.
pub proof fn law_renamed_is_there(
    s: workspace::SessionView,
    path: Seq<char>,
    list: Seq<patch::HunkView>,
    dest: Seq<char>,
)
    requires
        workspace::session_wf(s),
        applier::update_change(s, path, list, Some(dest)) is Ok,
        workspace::full_path(s, path) != workspace::full_path(s, dest),
    ensures
        ({
            let t = applier::after_change(
                s,
                patch::FileOpView::Update { path, hunks: list, move_to: Some(dest) },
            );
            let before = applier::file_text(s, path)->Ok_0;
            let lines = hunks::hunks_outcome(
                text::lines(before),
                list,
                path,
                s.threshold,
                list.len() as int,
            )->Ok_0.0;
            &&& t.disk == s.disk
            &&& workspace::file_bytes(t, dest) == Ok::<Seq<u8>, error::PatchErrorView>(
                bytes::encoded(hunks::text_of_lines(before, lines)),
            )
            &&& !workspace::implied_directory(t.staged, workspace::full_path(t, path))
                ==> workspace::path_kind(t, path) == Ok::<VirtualPathKind, error::PatchErrorView>(
                VirtualPathKind::Missing,
            )
        }),
{
    let before = applier::file_text(s, path)->Ok_0;
    let lines = hunks::hunks_outcome(
        text::lines(before),
        list,
        path,
        s.threshold,
        list.len() as int,
    )->Ok_0.0;
    lemma_moved(s, path, dest, bytes::encoded(hunks::text_of_lines(before, lines)));
}

/// An operation stages nothing for a path that is not among the files of its change.
pub proof fn law_other_files_stay(
    s: workspace::SessionView,
    op: patch::FileOpView,
    other: Seq<char>,
)
    requires
        applier::change(s, op) matches Ok(c) ==> forall|i: int|
            0 <= i < c.files.len() ==> (#[trigger] c.files[i]).path != other,
    ensures
        workspace::staged_at(applier::after_change(s, op).staged, other) == workspace::staged_at(
            s.staged,
            other,
        ),
        applier::after_change(s, op).disk == s.disk,
{
    if let Ok(c) = applier::change(s, op) {
        lemma_other_files(s.staged, c.files, other, c.files.len() as int);
    }
}

/// Staging files leaves other paths alone.
proof fn lemma_other_files(
    staged: Seq<workspace::StagedView>,
    files: Seq<workspace::StagedView>,
    other: Seq<char>,
    k: int,
)
    requires
        0 <= k <= files.len(),
        forall|i: int| 0 <= i < files.len() ==> (#[trigger] files[i]).path != other,
    ensures
        workspace::staged_at(applier::put_files(staged, files, k), other) == workspace::staged_at(
            staged,
            other,
        ),
    decreases k,
{
    if k > 0 {
        lemma_other_files(staged, files, other, k - 1);
        workspace::lemma_put(
            applier::put_files(staged, files, k - 1),
            files[k - 1].path,
            files[k - 1].content,
            other,
        );
    }
}

// ---------------------------------------------------------------------------
// Batches
// ---------------------------------------------------------------------------

/// The types of the results of operations.
proof fn lemma_result_type(
    s: workspace::SessionView,
    op: patch::FileOpView,
    batch_place: Option<(usize, usize)>,
)
    ensures
        batch::op_result(s, op, batch_place).op_type == applier::op_name(op).0,
        batch::is_mutating(applier::op_name(op).0) == applier::mutates(op),
{
    lemma_types_differ();
}

/// There is one result for each operation, and it is about that operation.
pub proof fn law_one_result_each(s: workspace::SessionView, ops: Seq<patch::FileOpView>, k: int)
    requires
        0 <= k <= ops.len(),
    ensures
        batch::batch_upto(s, ops, k).results.len() == k,
        forall|i: int|
            0 <= i < k ==> (#[trigger] batch::batch_upto(s, ops, k).results[i]).op_type
                == applier::op_name(ops[i]).0,
    decreases k,
{
    if k > 0 {
        law_one_result_each(s, ops, k - 1);
        let b = batch::batch_upto(s, ops, k - 1);
        let c = batch::batch_upto(s, ops, k);
        lemma_result_type(b.session, ops[k - 1], Some((k as usize, ops.len() as usize)));
        assert forall|i: int| 0 <= i < k implies (#[trigger] c.results[i]).op_type
            == applier::op_name(ops[i]).0 by {
            if i < k - 1 {
                assert(c.results[i] == b.results[i]);
            }
        }
    }
}

/// A batch is given up exactly where an operation failed.
pub proof fn law_given_up_on_failure(
    s: workspace::SessionView,
    ops: Seq<patch::FileOpView>,
    k: int,
)
    requires
        0 <= k <= ops.len(),
    ensures
        batch::batch_upto(s, ops, k).rollback is Some <==> exists|i: int|
            0 <= i < k && outcome::failed(
                (#[trigger] batch::batch_upto(s, ops, k).results[i]).status,
            ),
    decreases k,
{
    law_one_result_each(s, ops, k);
    if k > 0 {
        law_given_up_on_failure(s, ops, k - 1);
        law_one_result_each(s, ops, k - 1);
        let b = batch::batch_upto(s, ops, k - 1);
        let c = batch::batch_upto(s, ops, k);
        assert(forall|i: int| 0 <= i < k - 1 ==> c.results[i] == b.results[i]);
        if b.rollback is Some {
            let i = choose|i: int|
                0 <= i < k - 1 && outcome::failed((#[trigger] b.results[i]).status);
            assert(outcome::failed(c.results[i].status));
        } else {
            let last = c.results[k - 1];
            if outcome::failed(last.status) {
                assert(c.rollback is Some);
            }
            if exists|i: int| 0 <= i < k && outcome::failed((#[trigger] c.results[i]).status) {
                let i = choose|i: int|
                    0 <= i < k && outcome::failed((#[trigger] c.results[i]).status);
                if i < k - 1 {
                    assert(outcome::failed(b.results[i].status));
                }
            }
        }
    }
}

/// Once a batch is given up, nothing more is staged, and every operation that is left is
/// skipped.
pub proof fn law_nothing_after_failure(
    s: workspace::SessionView,
    ops: Seq<patch::FileOpView>,
    j: int,
    k: int,
)
    requires
        0 <= j <= k <= ops.len(),
        batch::batch_upto(s, ops, j).rollback is Some,
    ensures
        batch::batch_upto(s, ops, k).session == batch::batch_upto(s, ops, j).session,
        batch::batch_upto(s, ops, k).rollback == batch::batch_upto(s, ops, j).rollback,
        forall|i: int|
            j <= i < k ==> (#[trigger] batch::batch_upto(s, ops, k).results[i]).status is Skipped,
    decreases k,
{
    if j < k {
        law_nothing_after_failure(s, ops, j, k - 1);
        law_one_result_each(s, ops, k - 1);
        let b = batch::batch_upto(s, ops, k - 1);
        let c = batch::batch_upto(s, ops, k);
        assert forall|i: int| j <= i < k implies (#[trigger] c.results[i]).status is Skipped by {
            if i < k - 1 {
                assert(c.results[i] == b.results[i]);
            }
        }
    }
}

/// The operations of a batch see what those before them have staged: each is carried out on
/// the session that the one before has left.
pub proof fn law_authored_order(s: workspace::SessionView, ops: Seq<patch::FileOpView>, k: int)
    requires
        0 < k <= ops.len(),
        batch::batch_upto(s, ops, k - 1).rollback is None,
    ensures
        batch::batch_upto(s, ops, k).session == applier::after_change(
            batch::batch_upto(s, ops, k - 1).session,
            ops[k - 1],
        ),
        batch::batch_upto(s, ops, k).session.disk == batch::batch_upto(s, ops, k - 1).session.disk,
{
}

/// A batch never changes the disk while its operations are carried out.
pub proof fn law_disk_stays(s: workspace::SessionView, ops: Seq<patch::FileOpView>, k: int)
    requires
        0 <= k <= ops.len(),
    ensures
        batch::batch_upto(s, ops, k).session.disk == s.disk,
    decreases k,
{
    if k > 0 {
        law_disk_stays(s, ops, k - 1);
    }
}

/// A batch in which an operation failed writes nothing, and no operation that changes files
/// counts as done.
pub proof fn law_all_or_nothing(
    s: workspace::SessionView,
    ops: Seq<patch::FileOpView>,
    i: int,
    dry_run: bool,
    problem: Option<Seq<char>>,
)
    requires
        ({
            let b = batch::batch_upto(s, ops, ops.len() as int);
            0 <= i < ops.len() && outcome::failed(b.results[i].status)
        }),
    ensures
        ({
            let b = batch::batch_upto(s, ops, ops.len() as int);
            let effect = batch::effect_of(b.rollback, dry_run, problem);
            &&& batch::changes_of(b.session.staged, b.rollback, dry_run).len() == 0
            &&& !(effect is Committed)
            &&& forall|j: int|
                0 <= j < b.results.len() && batch::is_mutating((#[trigger] b.results[j]).op_type)
                    ==> !outcome::done(batch::settled(b.results[j], effect).status)
        }),
{
    law_given_up_on_failure(s, ops, ops.len() as int);
}

/// A batch that is only tried writes nothing.
pub proof fn law_dry_run_writes_nothing(
    staged: Seq<workspace::StagedView>,
    rollback: Option<Seq<char>>,
    problem: Option<Seq<char>>,
)
    ensures
        batch::changes_of(staged, rollback, true).len() == 0,
        !(batch::effect_of(rollback, true, problem) is Committed),
{
}

/// A batch in which no operation failed, and which is not only tried, writes all that it has
/// staged.
pub proof fn law_success_writes_all(s: workspace::SessionView, ops: Seq<patch::FileOpView>)
    requires
        ({
            let b = batch::batch_upto(s, ops, ops.len() as int);
            forall|i: int|
                0 <= i < ops.len() ==> !outcome::failed((#[trigger] b.results[i]).status)
        }),
    ensures
        ({
            let b = batch::batch_upto(s, ops, ops.len() as int);
            &&& batch::changes_of(b.session.staged, b.rollback, false) == b.session.staged
            &&& batch::effect_of(b.rollback, false, None) is Committed
        }),
{
    law_given_up_on_failure(s, ops, ops.len() as int);
}

/// What a session has staged, once written, is what is on the disk: each staged file has its
/// bytes or is gone, and every other file is as it was.
pub proof fn law_staged_is_written(
    s: workspace::SessionView,
    files: transaction::Files,
    suffixes: Seq<Seq<char>>,
    path: Seq<char>,
)
    requires
        workspace::session_wf(s),
        transaction::fits(files, transaction::planned(s.disk, s.staged, suffixes)),
    ensures
        ({
            let plan = transaction::planned(s.disk, s.staged, suffixes);
            let n = plan.len() as int;
            let end = transaction::run_steps(
                transaction::run_forward(files, plan, 3 * n),
                transaction::cleanup_steps(plan),
                n,
            );
            transaction::at(end, path) == (match workspace::staged_at(s.staged, path) {
                Some(content) => content,
                None => transaction::at(files, path),
            })
        }),
{
    let plan = transaction::planned(s.disk, s.staged, suffixes);
    let n = plan.len() as int;
    transaction::law_commit_reaches_goal(files, plan);
    transaction::law_goal(files, plan, n);
    workspace::lemma_staged_index(s.staged, path, 0);
    let i = workspace::staged_index(s.staged, path, 0);
    if i < s.staged.len() {
        assert(plan[i].target == path);
        assert(plan[i].content == s.staged[i].content);
    } else {
        assert forall|j: int| 0 <= j < n implies (#[trigger] plan[j]).target != path by {
            assert(s.staged[j].path != path);
        }
    }
}

// ---------------------------------------------------------------------------
// Patches
// ---------------------------------------------------------------------------

/// A patch has one result for each operation, and carrying it out leaves the disk alone.
pub proof fn law_patch_one_result_each(
    s: workspace::SessionView,
    ops: Seq<patch::FileOpView>,
    k: int,
)
    requires
        0 <= k <= ops.len(),
    ensures
        applier::steps(s, ops, k).1.len() == k,
        applier::steps(s, ops, k).0.disk == s.disk,
        applier::applied(s, ops).1.len() == ops.len(),
        applier::applied(s, ops).0.disk == s.disk,
{
    lemma_steps(s, ops, k);
    lemma_steps(s, ops, ops.len() as int);
}

/// As many results as operations, one operation after the other.
proof fn lemma_steps(s: workspace::SessionView, ops: Seq<patch::FileOpView>, k: int)
    requires
        0 <= k <= ops.len(),
    ensures
        applier::steps(s, ops, k).1.len() == k,
        applier::steps(s, ops, k).0.disk == s.disk,
    decreases k,
{
    if k > 0 {
        lemma_steps(s, ops, k - 1);
    }
}

/// A patch of which an operation failed writes nothing.
pub proof fn law_failed_patch_writes_nothing(
    s: workspace::SessionView,
    ops: Seq<patch::FileOpView>,
    i: int,
)
    requires
        0 <= i < applier::applied(s, ops).1.len(),
        outcome::failed(applier::applied(s, ops).1[i].status),
    ensures
        applier::to_commit(applier::applied(s, ops).0.staged, applier::applied(s, ops).1).len()
            == 0,
{
}

/// A patch that creates and updates one file is refused as a whole: nothing is staged, and no
/// operation counts as done.
pub proof fn law_conflict_is_refused(
    s: workspace::SessionView,
    ops: Seq<patch::FileOpView>,
    i: int,
)
    requires
        0 <= i < ops.len(),
        applier::in_conflict(ops, applier::op_name(ops[i]).1),
    ensures
        applier::applied(s, ops).0 == s,
        applier::any_failed(applier::applied(s, ops).1),
        forall|j: int|
            0 <= j < ops.len() ==> !((#[trigger] applier::applied(s, ops).1[j]).status is Success),
{
    lemma_conflict_found(ops, 0, i);
    let path = applier::conflict_from(ops, 0)->0;
    let k = choose|k: int| 0 <= k < ops.len() && applier::op_name(#[trigger] ops[k]).1 == path;
    assert(outcome::failed(applier::applied(s, ops).1[k].status));
}

/// A conflict is found where there is one.
proof fn lemma_conflict_found(ops: Seq<patch::FileOpView>, from: int, i: int)
    requires
        0 <= from <= i < ops.len(),
        applier::in_conflict(ops, applier::op_name(ops[i]).1),
    ensures
        applier::conflict_from(ops, from) is Some,
        exists|k: int|
            0 <= k < ops.len() && applier::op_name(#[trigger] ops[k]).1 == applier::conflict_from(
                ops,
                from,
            )->0,
    decreases i - from,
{
    if applier::in_conflict(ops, applier::op_name(ops[from]).1) {
        assert(applier::op_name(ops[from]).1 == applier::conflict_from(ops, from)->0);
    } else {
        lemma_conflict_found(ops, from + 1, i);
    }
}

// ---------------------------------------------------------------------------
// Results
// ---------------------------------------------------------------------------

/// The operations that went well, were skipped, failed or have a warning are all of them.
pub proof fn law_summary_adds_up(results: Seq<outcome::OpResultView>, k: int)
    requires
        0 <= k,
    ensures
        batch::count(results, |r: outcome::OpResultView| r.status is Success, k) + batch::count(
            results,
            |r: outcome::OpResultView| r.status is Skipped,
            k,
        ) + batch::count(results, |r: outcome::OpResultView| outcome::failed(r.status), k)
            + batch::count(
            results,
            |r: outcome::OpResultView| r.status is ValidationWarning,
            k,
        ) == k,
    decreases k,
{
    if k > 0 {
        law_summary_adds_up(results, k - 1);
    }
}

/// The operations of a batch, counted by their types, are all of them.
pub proof fn law_types_add_up(results: Seq<outcome::OpResultView>, k: int)
    requires
        0 <= k <= results.len(),
        forall|i: int|
            0 <= i < results.len() ==> batch::is_mutating((#[trigger] results[i]).op_type)
                || results[i].op_type == "read"@ || results[i].op_type == "map"@,
    ensures
        count_of(results, "add"@, k) + count_of(results, "write"@, k) + count_of(
            results,
            "update"@,
            k,
        ) + count_of(results, "delete"@, k) + count_of(results, "move"@, k) + count_of(
            results,
            "read"@,
            k,
        ) + count_of(results, "map"@, k) == k,
    decreases k,
{
    if k > 0 {
        law_types_add_up(results, k - 1);
        lemma_types_differ();
        assert(batch::is_mutating(results[k - 1].op_type) || results[k - 1].op_type == "read"@
            || results[k - 1].op_type == "map"@);
    }
}

/// How many of the first `k` results are of a type.
pub open spec fn count_of(results: Seq<outcome::OpResultView>, op_type: Seq<char>, k: int) -> int {
    batch::count(results, |r: outcome::OpResultView| r.op_type == op_type, k)
}

/// The names of the types differ.
proof fn lemma_types_differ()
    ensures
        "add"@ != "write"@ && "add"@ != "update"@ && "add"@ != "delete"@ && "add"@ != "move"@
            && "add"@ != "read"@ && "add"@ != "map"@,
        "write"@ != "update"@ && "write"@ != "delete"@ && "write"@ != "move"@ && "write"@
            != "read"@ && "write"@ != "map"@,
        "update"@ != "delete"@ && "update"@ != "move"@ && "update"@ != "read"@ && "update"@
            != "map"@,
        "delete"@ != "move"@ && "delete"@ != "read"@ && "delete"@ != "map"@,
        "move"@ != "read"@ && "move"@ != "map"@,
        "read"@ != "map"@,
{
    reveal_strlit("add");
    reveal_strlit("write");
    reveal_strlit("update");
    reveal_strlit("delete");
    reveal_strlit("move");
    reveal_strlit("read");
    reveal_strlit("map");
    assert("add"@[0] == 'a' && "map"@[0] == 'm');
    assert("move"@[0] == 'm' && "read"@[0] == 'r');
    assert("update"@[0] == 'u' && "delete"@[0] == 'd');
    assert("move"@.len() == 4 && "map"@.len() == 3);
}

/// Advice on a file changes nothing but the advice and whether there is a warning: it blocks no
/// operation.
pub proof fn law_advice_blocks_nothing(
    s: workspace::SessionView,
    ops: Seq<patch::FileOpView>,
    results: Seq<outcome::OpResultView>,
    target: Seq<char>,
    warnings: Seq<Seq<char>>,
    issue: bool,
    i: int,
)
    requires
        results.len() == ops.len(),
        0 <= i < results.len(),
    ensures
        server::advised(s, ops, results, target, warnings, issue).len() == results.len(),
        ({
            let r = server::advised(s, ops, results, target, warnings, issue)[i];
            &&& r == results[i] || r == server::with_advice(results[i], warnings, issue)
            &&& outcome::failed(r.status) == outcome::failed(results[i].status)
            &&& outcome::done(r.status) == outcome::done(results[i].status)
        }),
{
    lemma_last_writer(s, ops, results, target, ops.len() as int);
}

/// The last operation that wrote a file is one of them.
proof fn lemma_last_writer(
    s: workspace::SessionView,
    ops: Seq<patch::FileOpView>,
    results: Seq<outcome::OpResultView>,
    target: Seq<char>,
    k: int,
)
    ensures
        server::last_writer(s, ops, results, target, k) matches Some(i) ==> 0 <= i < k
            && outcome::done(results[i].status),
    decreases k,
{
    if k > 0 {
        lemma_last_writer(s, ops, results, target, k - 1);
    }
}

/// A batch that is only tried says of each operation what a batch that is written says, but for
/// the note that it was only tried.
pub proof fn law_dry_run_tells_the_same(r: outcome::OpResultView)
    ensures
        batch::settled(r, batch::EffectView::Committed) == r,
        batch::settled(r, batch::EffectView::DryRun) == (outcome::OpResultView {
            rollback_reason: batch::settled(r, batch::EffectView::DryRun).rollback_reason,
            ..r
        }),
{
}

/// What an operation shows is no more than it may, and what a batch has shown is no more than
/// it may.
pub proof fn law_output_is_limited(output: Option<Seq<char>>, b: batch::OutputBudget)
    requires
        b.used <= batch::MAX_TOTAL_OUTPUT_BYTES,
    ensures
        ({
            let (shown, left) = batch::budgeted(output, b);
            &&& b.used <= left.used <= batch::MAX_TOTAL_OUTPUT_BYTES
            &&& b.spent ==> left == b && shown is None
            &&& !left.spent && shown is Some ==> left.used == b.used + sizes::byte_len(shown->0)
            &&& !left.spent && shown is Some ==> sizes::byte_len(shown->0)
                <= batch::MAX_FILE_OUTPUT_BYTES + sizes::byte_len(
                "\n... [truncated: file exceeds 512KB limit]"@,
            )
        }),
{
    if let Some(o) = output {
        let note = "\n... [truncated: file exceeds 512KB limit]"@;
        sizes::law_shortened_fits(o, batch::MAX_FILE_OUTPUT_BYTES as int, note);
        sizes::lemma_byte_len_add(batch::cut_output(o), Seq::empty());
    }
}

} // verus!
