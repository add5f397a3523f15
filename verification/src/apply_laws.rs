//! What holds of patches as a whole, and of what is told of each change.

use vstd::prelude::*;

use crate::applier;
use crate::batch;
use crate::error;
use crate::excerpt;
use crate::hunk_laws;
use crate::hunks;
use crate::matching;
use crate::numbers;
use crate::outcome;
use crate::outcome::OpStatus;
use crate::parser;
use crate::patch;
use crate::patch_utils;
use crate::similarity;
use crate::similarity::Span;
use crate::sizes;
use crate::text;
use crate::text_laws;
use crate::workspace;

verus! {

// ---------------------------------------------------------------------------
// Patches
// ---------------------------------------------------------------------------

/// What an operation is called, and the path that it is about.
pub proof fn law_operation_names(
    path: Seq<char>,
    to: Seq<char>,
    content: Seq<char>,
    list: Seq<patch::HunkView>,
    depth: Option<usize>,
)
    ensures
        applier::op_name(patch::FileOpView::Add { path, content }) == ("add"@, path),
        applier::op_name(patch::FileOpView::Write { path, content }) == ("write"@, path),
        applier::op_name(patch::FileOpView::Delete { path }) == ("delete"@, path),
        applier::op_name(patch::FileOpView::Update { path, hunks: list, move_to: Some(to) }) == (
            "update"@,
            path,
        ),
        applier::op_name(patch::FileOpView::Move { from: path, to }) == ("move"@, path),
        applier::op_name(
            patch::FileOpView::Read {
                path,
                symbols: None,
                language: None,
                offset: depth,
                limit: depth,
            },
        ) == ("read"@, path),
        applier::op_name(patch::FileOpView::MapDir { path, depth, output_limit: depth }) == (
            "map"@,
            path,
        ),
{
}

/// Whether two operations create and update one file.
pub open spec fn clash(a: patch::FileOpView, b: patch::FileOpView) -> bool {
    &&& a matches patch::FileOpView::Add { path, .. } && (b matches patch::FileOpView::Update {
        path: other,
        ..
    } && path == other)
}

/// A patch with two operations that create and update one file is refused: nothing is staged, each
/// operation on one such file fails, and every other operation is skipped.
pub proof fn law_clash_is_refused(
    s: workspace::SessionView,
    ops: Seq<patch::FileOpView>,
    i: int,
    j: int,
    k: int,
)
    requires
        0 <= i < ops.len(),
        0 <= j < ops.len(),
        0 <= k < ops.len(),
        clash(ops[i], ops[j]),
    ensures
        applier::applied(s, ops).0 == s,
        applier::applied(s, ops).1.len() == ops.len(),
        ({
            let r = applier::applied(s, ops).1[k];
            (r.status is FatalError && r.message
                == "Cannot Add and Update the same file in one patch"@) || (r.status is Skipped
                && r.message == "Skipped due to conflict"@)
        }),
        exists|m: int|
            0 <= m < ops.len() && (#[trigger] applier::applied(s, ops).1[m]).status is FatalError,
{
    let path = applier::op_name(ops[i]).1;
    assert(applier::adds(ops[i], path) && applier::updates(ops[j], path));
    assert(applier::in_conflict(ops, path));
    lemma_conflict(ops, 0, i);
    let found = applier::conflict_from(ops, 0)->0;
    lemma_conflict_at(ops, 0);
    let m = choose|m: int| 0 <= m < ops.len() && applier::op_name(#[trigger] ops[m]).1 == found;
    assert(applier::applied(s, ops).1[m].status is FatalError);
}

/// Where one file alone is created and updated, each operation on it fails and the others are
/// skipped.
pub proof fn law_only_clash(
    s: workspace::SessionView,
    ops: Seq<patch::FileOpView>,
    i: int,
    j: int,
    k: int,
)
    requires
        0 <= i < ops.len(),
        0 <= j < ops.len(),
        0 <= k < ops.len(),
        clash(ops[i], ops[j]),
        forall|a: int, b: int|
            0 <= a < ops.len() && 0 <= b < ops.len() && clash(#[trigger] ops[a], #[trigger] ops[b])
                ==> applier::op_name(ops[a]).1 == applier::op_name(ops[i]).1,
    ensures
        applier::applied(s, ops).1[k].status is FatalError <==> applier::op_name(ops[k]).1
            == applier::op_name(ops[i]).1,
        applier::applied(s, ops).1[k].op_type == applier::op_name(ops[k]).0,
        applier::applied(s, ops).1[k].path == applier::op_name(ops[k]).1,
{
    let path = applier::op_name(ops[i]).1;
    assert(applier::adds(ops[i], path) && applier::updates(ops[j], path));
    assert(applier::in_conflict(ops, path));
    lemma_conflict(ops, 0, i);
    lemma_conflict_at(ops, 0);
    let found = applier::conflict_from(ops, 0)->0;
    let a = choose|a: int| 0 <= a < ops.len() && applier::adds(#[trigger] ops[a], found);
    let b = choose|b: int| 0 <= b < ops.len() && applier::updates(#[trigger] ops[b], found);
    assert(clash(ops[a], ops[b]));
}

/// A conflict is found.
proof fn lemma_conflict(ops: Seq<patch::FileOpView>, from: int, i: int)
    requires
        0 <= from <= i < ops.len(),
        applier::in_conflict(ops, applier::op_name(ops[i]).1),
    ensures
        applier::conflict_from(ops, from) is Some,
    decreases i - from,
{
    if !applier::in_conflict(ops, applier::op_name(ops[from]).1) {
        lemma_conflict(ops, from + 1, i);
    }
}

/// A conflict that is found is of an operation.
proof fn lemma_conflict_at(ops: Seq<patch::FileOpView>, from: int)
    requires
        0 <= from,
        applier::conflict_from(ops, from) is Some,
    ensures
        exists|m: int|
            0 <= m < ops.len() && applier::op_name(#[trigger] ops[m]).1
                == applier::conflict_from(ops, from)->0,
        applier::in_conflict(ops, applier::conflict_from(ops, from)->0),
    decreases ops.len() - from,
{
    if applier::in_conflict(ops, applier::op_name(ops[from]).1) {
        assert(applier::op_name(ops[from]).1 == applier::conflict_from(ops, from)->0);
    } else {
        lemma_conflict_at(ops, from + 1);
    }
}

/// Any other patch is carried out in the order of its operations, each on what those before it have
/// staged, though one of them failed.
pub proof fn law_patch_in_order(
    s: workspace::SessionView,
    ops: Seq<patch::FileOpView>,
    op: patch::FileOpView,
)
    requires
        forall|i: int, j: int|
            0 <= i < ops.push(op).len() && 0 <= j < ops.push(op).len() ==> !clash(
                #[trigger] ops.push(op)[i],
                #[trigger] ops.push(op)[j],
            ),
    ensures
        ({
            let (t, results) = applier::applied(s, ops);
            let (u, more) = applier::applied(s, ops.push(op));
            &&& more.len() == results.len() + 1
            &&& more.take(results.len() as int) == results
            &&& u == applier::after_change(t, op)
            &&& applier::mutates(op) ==> more.last() == applier::change_result(t, op, None)
        }),
        applier::applied(s, Seq::empty()) == (s, Seq::<outcome::OpResultView>::empty()),
{
    let all = ops.push(op);
    assert forall|i: int, j: int| 0 <= i < ops.len() && 0 <= j < ops.len() implies !clash(
        #[trigger] ops[i],
        #[trigger] ops[j],
    ) by {
        assert(all[i] == ops[i] && all[j] == ops[j]);
        assert(!clash(all[i], all[j]));
    }
    lemma_no_conflict(ops);
    lemma_no_conflict(all);
    lemma_no_conflict(Seq::empty());
    lemma_steps_prefix(s, ops, op, ops.len() as int);
    assert(all[ops.len() as int] == op);
    crate::laws::law_patch_one_result_each(s, ops, ops.len() as int);
    let (t, results) = applier::applied(s, ops);
    let (u, more) = applier::applied(s, all);
    assert(more.take(results.len() as int) =~= results);
    if !applier::mutates(op) {
        crate::laws::law_reading_changes_nothing(t, op);
    }
}

/// Where no operations clash, there is no conflict.
proof fn lemma_no_conflict(ops: Seq<patch::FileOpView>)
    requires
        forall|i: int, j: int|
            0 <= i < ops.len() && 0 <= j < ops.len() ==> !clash(
                #[trigger] ops[i],
                #[trigger] ops[j],
            ),
    ensures
        applier::conflict_from(ops, 0) is None,
{
    if applier::conflict_from(ops, 0) is Some {
        lemma_conflict_at(ops, 0);
        let path = applier::conflict_from(ops, 0)->0;
        let i = choose|i: int| 0 <= i < ops.len() && applier::adds(#[trigger] ops[i], path);
        let j = choose|j: int| 0 <= j < ops.len() && applier::updates(#[trigger] ops[j], path);
        assert(clash(ops[i], ops[j]));
    }
}

/// The first operations of a patch.
proof fn lemma_steps_prefix(
    s: workspace::SessionView,
    ops: Seq<patch::FileOpView>,
    op: patch::FileOpView,
    k: int,
)
    requires
        0 <= k <= ops.len(),
    ensures
        applier::steps(s, ops.push(op), k) == applier::steps(s, ops, k),
    decreases k,
{
    if k > 0 {
        lemma_steps_prefix(s, ops, op, k - 1);
        assert(ops.push(op)[k - 1] == ops[k - 1]);
    }
}

/// What a patch says of a path that it reads or maps: whether there is a file, or a directory.
pub proof fn law_looking(s: workspace::SessionView, op: patch::FileOpView)
    requires
        op is Read || op is MapDir,
    ensures
        ({
            let r = applier::look_result(s, op);
            let (kind, path) = applier::op_name(op);
            let node = workspace::virtual_node(s, workspace::full_path(s, path));
            &&& r.op_type == kind && r.path == path
            &&& op is Read ==> (r.status is Success <==> node is Some && node->0 is File)
            &&& op is MapDir ==> (r.status is Success <==> node is Some && (node->0 is Directory
                || node->0 is ClosedDirectory))
            &&& r.status is Success || r.status is FatalError
            &&& op is Read && node is None ==> r.message == "File not found"@
            &&& op is MapDir && node is None ==> r.message == "Directory not found"@
            &&& op is Read && r.status is Success ==> r.message == "File read successfully"@
            &&& op is MapDir && node is Some && node->0 is File ==> r.message
                == "Path is not a directory"@
            &&& op is Read && node is Some && node->0 is Symlink ==> r.message
                == "Symlink rejected"@
            &&& match node {
                Some(workspace::NodeView::Unreadable(m)) => op is Read ==> r.message
                    == "IO error: "@ + m,
                _ => true,
            }
            &&& op is Read && node is Some && (node->0 is Directory || node->0 is Other)
                ==> r.message == "Not a regular file"@
        }),
{
}

/// Files are written exactly where no operation failed.
pub proof fn law_when_files_are_written(
    staged: Seq<workspace::StagedView>,
    results: Seq<outcome::OpResultView>,
    i: int,
)
    ensures
        0 <= i < results.len() && (results[i].status is FatalError || results[i].status
            is RecoverableError) ==> applier::to_commit(staged, results).len() == 0,
        (forall|j: int|
            0 <= j < results.len() ==> !((#[trigger] results[j]).status is FatalError)
                && !(results[j].status is RecoverableError)) ==> applier::to_commit(staged, results)
            == staged,
{
}

/// Where the files could not be written, what went well has failed, for that reason; the rest stays.
pub proof fn law_not_written(r: outcome::OpResultView, problem: Seq<char>)
    ensures
        r.status is Success || r.status is ValidationWarning ==> applier::not_committed(r, problem)
            == (outcome::OpResultView {
            status: OpStatus::FatalError,
            message: "Commit failed: "@ + problem,
            ..r
        }),
        !(r.status is Success || r.status is ValidationWarning) ==> applier::not_committed(
            r,
            problem,
        ) == r,
{
}

/// What is told of a change: what it was, of which path and how that was given, its place in the
/// batch, and what the change says; of one that failed, the error.
pub proof fn law_change_is_told(
    s: workspace::SessionView,
    op: patch::FileOpView,
    place: Option<(usize, usize)>,
)
    ensures
        ({
            let r = applier::change_result(s, op, place);
            let (kind, path) = applier::op_name(op);
            &&& r.op_type == kind && r.path == path
            &&& r.path_source == Some(workspace::path_source(s, path))
            &&& place is Some ==> r.batch_index == Some((place->0).0) && r.batch_total == Some(
                (place->0).1,
            )
            &&& place is None ==> r.batch_index is None && r.batch_total is None
            &&& r.warnings.len() == 0 && r.output is None && r.rollback_reason is None
            &&& match applier::change(s, op) {
                Ok(c) => r.status == c.status && r.message == c.message && r.diff == c.diff
                    && r.line_changes == c.line_changes && r.match_info == c.match_info
                    && r.llm_error is None,
                Err(e) => r.message == error::error_message(e) && r.llm_error == Some(
                    error::error_output(e),
                ) && r.diff is None && (r.status is RecoverableError <==> e is ContextNotFound || e
                    is AmbiguousContext) && (r.status is FatalError <==> !(e is ContextNotFound)
                    && !(e is AmbiguousContext)),
            }
        }),
{
}

/// What a path is read as: the bytes of a file; anything else is an error.
pub proof fn law_bytes_of_files(s: workspace::SessionView, path: Seq<char>)
    ensures
        match workspace::virtual_node(s, workspace::full_path(s, path)) {
            Some(workspace::NodeView::File(b)) => workspace::file_bytes(s, path) == Ok::<
                Seq<u8>,
                error::PatchErrorView,
            >(b),
            None => workspace::file_bytes(s, path) == Err::<Seq<u8>, error::PatchErrorView>(
                error::PatchErrorView::FileNotFound(path),
            ),
            Some(workspace::NodeView::Symlink) => workspace::file_bytes(s, path) == Err::<
                Seq<u8>,
                error::PatchErrorView,
            >(error::PatchErrorView::SymlinkRejected(path)),
            Some(workspace::NodeView::Unreadable(m)) => workspace::file_bytes(s, path) == Err::<
                Seq<u8>,
                error::PatchErrorView,
            >(error::PatchErrorView::Io(m)),
            Some(_) => workspace::file_bytes(s, path) == Err::<Seq<u8>, error::PatchErrorView>(
                error::PatchErrorView::Io("Not a regular file"@),
            ),
        },
{
}

/// The summary of an outcome counts what went well and what failed.
pub proof fn law_outcome_summary(results: Seq<outcome::OpResultView>)
    requires
        results.len() < usize::MAX,
    ensures
        patch_utils::outcome_summary(results) == "PatchOutcome: "@ + numbers::decimal(results.len())
            + " total, "@ + numbers::decimal(
            batch::summary_of(results).ok_operations as nat,
        ) + " successful, "@ + numbers::decimal(
            batch::summary_of(results).error_operations as nat,
        ) + " failed"@,
{
    let n = results.len() as int;
    let ok = |r: outcome::OpResultView| r.status is Success;
    let wrong = |r: outcome::OpResultView| outcome::failed(r.status);
    batch::lemma_count(results, ok, n);
    batch::lemma_count(results, wrong, n);
}

// ---------------------------------------------------------------------------
// Places that are told
// ---------------------------------------------------------------------------

/// Of each of several places the first three lines are told, as far as there are any, without the
/// white space at their ends.
pub proof fn law_lines_of_places(file: Seq<Seq<char>>, places: Seq<usize>, path: Seq<char>, i: int)
    requires
        0 <= i < places.len(),
        places[i] < file.len(),
    ensures
        hunks::ambiguous(file, places, path) matches error::PatchErrorView::AmbiguousContext {
            path: p,
            match_positions,
            context_at_each,
            ..
        } && p == path && match_positions == places && context_at_each.len() == places.len() && {
            let at = places[i] as int;
            &&& at + 3 <= file.len() ==> context_at_each[i] == text::trim_end(file[at])
                + seq!['\n'] + text::trim_end(file[at + 1]) + seq!['\n'] + text::trim_end(
                file[at + 2],
            )
            &&& at + 1 == file.len() ==> context_at_each[i] == text::trim_end(file[at])
        },
{
    reveal_strlit("\n");
    assert("\n"@ =~= seq!['\n']);
    let at = places[i] as int;
    let end = excerpt::cut_end(file.len() as int, at, 3);
    let part = matching::trimmed_lines(file.subrange(at, end));
    reveal_with_fuel(text::join, 4);
    if at + 3 <= file.len() {
        assert(part.len() == 3);
        assert(part.drop_last().drop_last() =~= seq![part[0]]);
        assert(part.drop_last().last() == part[1]);
        assert(text::join(part, "\n"@) =~= text::trim_end(file[at]) + seq!['\n']
            + text::trim_end(file[at + 1]) + seq!['\n'] + text::trim_end(file[at + 2]));
    }
}

/// How similar a place is to the lines that were looked for: they are compared with as many lines
/// from there on, as far as there are any, each with its end.
pub proof fn law_likeness(file: Seq<Seq<char>>, pattern: Seq<Seq<char>>, at: int)
    requires
        0 <= at < file.len(),
        pattern.len() > 0,
    ensures
        excerpt::likenesses(file, pattern)[at] == similarity::similarity_spec(
            hunk_laws::window_text(pattern, 0, pattern.len() as int),
            hunk_laws::window_text(
                file,
                at,
                if at + pattern.len() <= file.len() {
                    pattern.len() as int
                } else {
                    file.len() - at
                },
            ),
        ),
{
    let n = pattern.len() as int;
    let m = if at + n <= file.len() {
        n
    } else {
        file.len() - at
    };
    hunk_laws::lemma_block_text(pattern, 0, n);
    assert(pattern.subrange(0, n) =~= pattern);
    hunk_laws::lemma_block_text(file, at, m);
}

/// The characters that stay the same are counted over all steps of a difference.
pub proof fn law_equal_characters(a: Seq<Span>, b: Seq<Span>)
    ensures
        similarity::equal_chars(a + b) == similarity::equal_chars(a) + similarity::equal_chars(b),
        similarity::equal_chars(Seq::empty()) == 0,
        a.len() == 1 && !(a[0] is Equal) ==> similarity::equal_chars(a) == 0,
        a.len() == 1 && a[0] is Equal ==> similarity::equal_chars(a) == a[0]->Equal_len,
    decreases b.len(),
{
    if b.len() > 0 {
        law_equal_characters(a, b.drop_last());
        assert((a + b).drop_last() =~= a + b.drop_last());
        assert((a + b).last() == b.last());
    } else {
        assert(a + b =~= a);
    }
    if a.len() == 1 {
        assert(a.drop_last() =~= Seq::<Span>::empty());
        reveal_with_fuel(similarity::equal_chars, 2);
    }
}

/// How many bytes a character takes is how many it is encoded as.
pub proof fn law_bytes_of_characters(c: char)
    ensures
        sizes::char_bytes(c) == vstd::utf8::encode_scalar(c as u32).len(),
{
}

/// How many bytes a text takes is how many it is encoded as.
pub proof fn law_bytes_of_texts(s: Seq<char>)
    ensures
        sizes::byte_len(s) == crate::bytes::encoded(s).len(),
    decreases s.len(),
{
    if s.len() > 0 {
        law_bytes_of_characters(s[0]);
        law_bytes_of_texts(s.skip(1));
        assert(s.drop_first() =~= s.skip(1));
    }
}

// ---------------------------------------------------------------------------
// Markers
// ---------------------------------------------------------------------------

/// A patch begins with a line that starts like the first marker, whatever is behind it, and ends
/// with a line that is the last marker alone. White space round them does not matter.
pub proof fn law_markers(a: Seq<char>, rest: Seq<char>, b: Seq<char>)
    requires
        text_laws::blank(a),
        text_laws::blank(b),
        rest.len() == 0 || !text::is_space(rest.last()),
    ensures
        parser::is_begin(a + ("=== begin"@ + rest) + b),
        parser::is_end(a + "=== end"@ + b),
        parser::is_native_begin(a + "*** Begin Patch"@ + b),
        rest.len() > 0 ==> !parser::is_end(a + ("=== end"@ + rest) + b),
        !parser::is_begin(a + "=== end"@ + b),
{
    reveal_strlit("=== begin");
    reveal_strlit("=== end");
    reveal_strlit("*** Begin Patch");
    let x = "=== begin"@ + rest;
    text_laws::law_trimmed(a, x, b);
    text_laws::law_ends("=== begin"@, rest);
    text_laws::law_trimmed(a, "=== end"@, b);
    text_laws::law_trimmed(a, "*** Begin Patch"@, b);
    text_laws::law_trimmed(a, "=== end"@ + rest, b);
    assert(("=== end"@ + rest).len() == 7 + rest.len());
    text_laws::law_ends_differ("=== end"@, "=== begin"@, 4);
}

/// The threshold of a patch is what its first line names behind the marker; without a name it has
/// none.
pub proof fn law_threshold_is_named(v: Seq<char>)
    requires
        v.len() > 0,
        text_laws::solid(v),
    ensures
        parser::begin_threshold("=== begin"@) == Ok::<
            Option<similarity::Threshold>,
            error::PatchErrorView,
        >(None),
        match crate::threshold::threshold_text(v) {
            crate::threshold::ThresholdText::Valid(t) => parser::begin_threshold(
                "=== begin"@ + " threshold="@ + v,
            ) == Ok::<Option<similarity::Threshold>, error::PatchErrorView>(Some(t)),
            _ => parser::begin_threshold("=== begin"@ + " threshold="@ + v) is Err,
        },
{
    reveal_strlit("=== begin");
    reveal_strlit(" threshold=");
    reveal_strlit("threshold=");
    let none = Seq::<char>::empty();
    let begin = "=== begin"@;
    text_laws::law_trimmed(none, begin, none);
    assert(none + begin + none =~= begin);
    assert(begin.skip(9) =~= none);
    let word = "threshold="@ + v;
    text_laws::law_words(none, word, none);
    text_laws::law_words(seq![' '], word, none);
    assert(text_laws::solid(word)) by {
        assert forall|i: int| 0 <= i < word.len() implies !text::is_space(#[trigger] word[i]) by {
            if i < 10 {
                assert(word[i] == "threshold="@[i]);
            } else {
                assert(word[i] == v[i - 10]);
            }
        }
    }
    let line = begin + " threshold="@ + v;
    assert(line.last() == v.last());
    assert(!text::is_space(v.last()));
    text_laws::law_trimmed(none, line, none);
    assert(none + line + none =~= line);
    let rest = line.skip(9);
    assert(rest =~= seq![' '] + word + none);
    assert(text::words(rest) =~= seq![word]);
    text_laws::law_ends("threshold="@, v);
    assert(parser::threshold_word(text::words(rest), 0) == Some(v));
}

} // verus!
