//! What holds of what is told of operations: their results, errors, differences and reports.

use vstd::prelude::*;

use crate::batch::ExecutionSummary;
use crate::bytes;
use crate::diffs;
use crate::error;
use crate::hunk_laws;
use crate::numbers;
use crate::outcome;
use crate::outcome::OpStatus;
use crate::parser;
use crate::paths;
use crate::reading;
use crate::report;
use crate::similarity::Threshold;
use crate::sizes;
use crate::text;
use crate::text_laws;
use crate::tree;
use crate::workspace;

verus! {

// ---------------------------------------------------------------------------
// Errors
// ---------------------------------------------------------------------------

/// What is said of each error.
pub proof fn law_error_messages(m: Seq<char>, count: usize, places: Seq<usize>, at: Seq<Seq<char>>)
    ensures
        error::error_message(error::PatchErrorView::Parse(m)) == "parse error: "@ + m,
        error::error_message(error::PatchErrorView::FileNotFound(m)) == "file not found: "@ + m,
        error::error_message(error::PatchErrorView::Io(m)) == "io error: "@ + m,
        error::error_message(error::PatchErrorView::FileAlreadyExists(m))
            == "file already exists: "@ + m,
        error::error_message(error::PatchErrorView::SymlinkRejected(m)) == "symlink rejected: "@
            + m,
        error::error_message(
            error::PatchErrorView::AmbiguousContext {
                path: m,
                count,
                match_positions: places,
                context_at_each: at,
            },
        ) == "ambiguous context: "@ + m + " ("@ + numbers::decimal(count as nat)
            + " matches at lines: "@ + text::join(
            Seq::new(places.len(), |i: int| numbers::decimal(places[i] as nat)),
            ", "@,
        ) + ")"@,
{
    assert(places.map_values(|n: usize| numbers::decimal(n as nat)) =~= Seq::new(
        places.len(),
        |i: int| numbers::decimal(places[i] as nat),
    ));
}

/// What is said of lines that were not found: the path, how many lines the file has and how many
/// were looked for, the hint where there was one, and the first three lines of the excerpt.
pub proof fn law_not_found_message(d: error::NotFoundView)
    ensures
        ({
            let all = text::lines(d.file_excerpt);
            let head = "Context not found: "@ + d.path + "\n  file has "@ + numbers::decimal(
                d.total_lines as nat,
            ) + " lines, expected "@ + numbers::decimal(d.pattern.len()) + " line pattern\n"@;
            let hinted = if d.hint is Some {
                head + "  Hint attempted: "@ + d.hint->0 + "\n"@
            } else {
                head
            };
            let message = error::error_message(error::PatchErrorView::ContextNotFound(d));
            &&& d.file_excerpt.len() == 0 ==> message == hinted
            &&& all.len() >= 3 ==> message == hinted + "  Nearest file content:\n"@ + ("    "@
                + all[0] + "\n"@ + "    "@ + all[1] + "\n"@ + "    "@ + all[2] + "\n"@)
            &&& all.len() == 2 ==> message == hinted + "  Nearest file content:\n"@ + ("    "@
                + all[0] + "\n"@ + "    "@ + all[1] + "\n"@)
            &&& all.len() == 1 ==> message == hinted + "  Nearest file content:\n"@ + ("    "@
                + all[0] + "\n"@)
        }),
{
    reveal_with_fuel(error::indented, 4);
    let all = text::lines(d.file_excerpt);
    if d.file_excerpt.len() == 0 {
        assert(all.len() == 0);
    }
    let none = Seq::<char>::empty();
    if all.len() >= 3 {
        assert(error::indented(all, 3) =~= "    "@ + all[0] + "\n"@ + "    "@ + all[1] + "\n"@
            + "    "@ + all[2] + "\n"@);
    } else if all.len() == 2 {
        assert(error::indented(all, 2) =~= "    "@ + all[0] + "\n"@ + "    "@ + all[1] + "\n"@);
    } else if all.len() == 1 {
        assert(error::indented(all, 1) =~= "    "@ + all[0] + "\n"@);
    }
}

/// What is told of lines that were not found: the lines that were looked for; the closest line and
/// how similar it is, where there is one, else the excerpt; and whether it is similar enough, to
/// four fifths, to be taken.
pub proof fn law_not_found_output(d: error::NotFoundView)
    ensures
        ({
            let out = error::error_output(error::PatchErrorView::ContextNotFound(d));
            &&& out.file == d.path
            &&& out.failed_hunk is None && out.applied_hunks == 0
            &&& out.expected_context == d.pattern
            &&& d.closest_matches.len() == 0 ==> out.actual_content == d.file_excerpt
                && out.similarity_score is None && out.suggested_action == "re_read_file"@
            &&& d.closest_matches.len() > 0 ==> out.actual_content
                == d.closest_matches[0].actual_content && out.similarity_score == Some(
                d.closest_matches[0].similarity,
            )
            &&& d.closest_matches.len() > 0 && d.closest_matches[0].similarity.reaches(
                Threshold { units: 800_000_000_000_000_000 },
            ) ==> out.suggested_action == "fuzzy_match_available"@
            &&& d.closest_matches.len() > 0 && !d.closest_matches[0].similarity.reaches(
                Threshold { units: 800_000_000_000_000_000 },
            ) ==> out.suggested_action == "re_read_file"@
            &&& out.recovery_hint == "File '"@ + d.path + "' has "@ + numbers::decimal(
                d.total_lines as nat,
            ) + " lines. Check if context was modified or moved."@
        }),
{
}

/// What is told of the other errors, and what is suggested.
pub proof fn law_other_outputs(
    p: Seq<char>,
    count: usize,
    places: Seq<usize>,
    at: Seq<Seq<char>>,
)
    ensures
        ({
            let missing = error::error_output(error::PatchErrorView::FileNotFound(p));
            let there = error::error_output(error::PatchErrorView::FileAlreadyExists(p));
            let link = error::error_output(error::PatchErrorView::SymlinkRejected(p));
            let syntax = error::error_output(error::PatchErrorView::Parse(p));
            let system = error::error_output(error::PatchErrorView::Io(p));
            let several = error::error_output(
                error::PatchErrorView::AmbiguousContext {
                    path: p,
                    count,
                    match_positions: places,
                    context_at_each: at,
                },
            );
            &&& missing.file == p && there.file == p && link.file == p && several.file == p
            &&& syntax.file.len() == 0 && system.file.len() == 0
            &&& missing.suggested_action == "create_target_file_before_patch"@
            &&& there.suggested_action == "use_update_operation_for_existing_file"@
            &&& link.suggested_action == "resolve_symlink"@
            &&& syntax.suggested_action == "correct_syntax_in_patch_block"@
            &&& system.suggested_action == "check_permissions"@
            &&& several.suggested_action == "add_disambiguating_context_lines"@
            &&& syntax.actual_content == p && system.actual_content == p
            &&& missing.actual_content.len() == 0 && there.actual_content.len() == 0
                && link.actual_content.len() == 0
            &&& several.actual_content == text::join(at, "\n---\n"@)
            &&& several.expected_context == seq![
                "Ambiguous: "@ + numbers::decimal(count as nat) + " matches found"@,
            ]
            &&& missing.recovery_hint == "File '"@ + p
                + "' does not exist. Create it first or check path."@
            &&& there.recovery_hint == "File '"@ + p
                + "' already exists. Use Update instead of Add."@
            &&& link.recovery_hint == "Path '"@ + p
                + "' is a symlink. Resolve to real path first."@
            &&& syntax.recovery_hint == "Patch syntax error: "@ + p
            &&& system.recovery_hint == "IO error: "@ + p
        }),
{
}

// ---------------------------------------------------------------------------
// Reading and mapping
// ---------------------------------------------------------------------------

/// How a path was given, in a word.
pub proof fn law_sources()
    ensures
        paths::source_text(paths::PathSource::Relative) == "relative"@,
        paths::source_text(paths::PathSource::Absolute) == "absolute"@,
        paths::source_text(paths::PathSource::Home) == "home"@,
{
}

/// What reading a file tells: where there is a file of text or a binary file, the path, how it was
/// given, whether the batch has changed the file, what is shown and what is said of it. Where
/// nothing is, or something else, or text that is not UTF-8, reading fails.
pub proof fn law_reading_tells(
    s: workspace::SessionView,
    request: parser::ReadView,
    place: Option<(usize, usize)>,
)
    ensures
        ({
            let full = workspace::full_path(s, request.path);
            let node = workspace::virtual_node(s, full);
            let r = reading::read_result(s, request, place);
            let head = "--- "@ + request.path + " ["@ + paths::source_text(
                workspace::path_source(s, request.path),
            ) + "]"@ + (if workspace::staged_at(s.staged, full) is Some {
                " [staged]"@
            } else {
                ""@
            }) + " "@;
            &&& r.op_type == "read"@ && r.path == request.path && r.path_source == Some(
                workspace::path_source(s, request.path),
            )
            &&& place is Some ==> r.batch_index == Some((place->0).0) && r.batch_total == Some(
                (place->0).1,
            )
            &&& r.status is Success ==> r.message == "read: "@ + request.path + (
            if workspace::staged_at(s.staged, full) is Some {
                " (staged)"@
            } else {
                " (ok)"@
            })
            &&& node is None ==> r.status is FatalError && r.output is None && r.message
                == "file not found: "@ + request.path
            &&& node is Some && !(node->0 is File) ==> r.status is FatalError && r.output is None
            &&& match node {
                Some(workspace::NodeView::File(b)) => {
                    &&& bytes::binary(b) ==> r.status is Success && r.output == Some(
                        head + "[binary]"@ + " ---\n"@ + "[binary file - content not displayed]"@,
                    )
                    &&& !bytes::binary(b) && bytes::decoded(b) is Some ==> {
                        let shown = reading::shown_text(request, bytes::decoded(b)->0);
                        r.status is Success && r.output == Some(
                            head + shown.label + " ---\n"@ + shown.body + shown.notice,
                        )
                    }
                    &&& !bytes::binary(b) && bytes::decoded(b) is None ==> r.status is FatalError
                        && r.output is None
                },
                _ => true,
            }
        }),
{
    let full = workspace::full_path(s, request.path);
    let r = reading::read_result(s, request, place);
    if let Some(workspace::NodeView::File(b)) = workspace::virtual_node(s, full) {
        if bytes::binary(b) {
            let none = Seq::<char>::empty();
            let body = "[binary file - content not displayed]"@;
            assert(body + none =~= body);
            let head = "--- "@ + request.path + " ["@ + paths::source_text(
                workspace::path_source(s, request.path),
            ) + "]"@ + (if workspace::staged_at(s.staged, full) is Some {
                " [staged]"@
            } else {
                ""@
            }) + " "@;
            assert(r.output->0 =~= head + "[binary]"@ + " ---\n"@ + body);
        }
    }
}

/// What mapping a directory tells, three levels deep and no more than six thousand characters long
/// where nothing else is asked for. Anything but a directory is not mapped.
pub proof fn law_mapping_tells(
    s: workspace::SessionView,
    path: Seq<char>,
    depth: Option<usize>,
    limit: Option<usize>,
    place: Option<(usize, usize)>,
)
    ensures
        ({
            let full = workspace::full_path(s, path);
            let node = workspace::virtual_node(s, full);
            let r = reading::map_result(s, path, depth, limit, place);
            let levels = if depth is Some {
                depth->0 as int
            } else {
                3
            };
            let room = if limit is Some {
                limit->0
            } else {
                6000
            };
            &&& r.op_type == "map"@ && r.path == path
            &&& node is None ==> r.status is FatalError && r.message == "file not found: "@ + path
            &&& node is Some && node->0 is File ==> r.status is FatalError
            &&& r.status is Success ==> r.message == "map: "@ + path + " (ok)"@
            &&& match node {
                Some(workspace::NodeView::ClosedDirectory(m)) => r.status is FatalError
                    && r.message == "io error: "@ + m,
                _ => true,
            }
            &&& node is Some && node->0 is Directory ==> match tree::map_dir(s, full, levels, 0) {
                Ok((lines, metrics)) => r.status is Success && r.output == Some(
                    "--- Map: "@ + path + " ---\n"@ + reading::map_text(
                        path,
                        workspace::path_source(s, path),
                        lines,
                        metrics,
                        room,
                    ),
                ),
                Err(_) => r.status is FatalError && r.output is None,
            }
        }),
{
}

// ---------------------------------------------------------------------------
// Differences
// ---------------------------------------------------------------------------

/// The lines of the difference that a new file makes.
pub open spec fn difference_lines(name: Seq<char>, lines: Seq<Seq<char>>) -> Seq<Seq<char>> {
    seq![
        "--- /dev/null"@,
        "+++ "@ + name,
        "@@ -0,0 +1,"@ + numbers::decimal(lines.len()) + " @@"@,
    ] + Seq::new(lines.len(), |i: int| seq!['+'] + lines[i])
}

/// The lines of a difference, each with its end.
proof fn lemma_difference(name: Seq<char>, lines: Seq<Seq<char>>, k: int)
    requires
        0 <= k <= lines.len(),
    ensures
        hunk_laws::window_text(difference_lines(name, lines), 0, 3 + k)
            == "--- /dev/null\n+++ "@ + name + "\n@@ -0,0 +1,"@ + numbers::decimal(lines.len())
            + " @@\n"@ + diffs::marked_lines(lines, k),
    decreases k,
{
    reveal_strlit("--- /dev/null\n+++ ");
    reveal_strlit("--- /dev/null");
    reveal_strlit("+++ ");
    reveal_strlit("\n@@ -0,0 +1,");
    reveal_strlit("@@ -0,0 +1,");
    reveal_strlit(" @@\n");
    reveal_strlit(" @@");
    reveal_strlit("+");
    reveal_strlit("\n");
    let all = difference_lines(name, lines);
    let n = numbers::decimal(lines.len());
    let head = "--- /dev/null\n+++ "@ + name + "\n@@ -0,0 +1,"@ + n + " @@\n"@;
    if k > 0 {
        lemma_difference(name, lines, k - 1);
        assert(all[3 + k - 1] == seq!['+'] + lines[k - 1]);
        assert(hunk_laws::window_text(all, 0, 3 + k) =~= head + diffs::marked_lines(lines, k));
    } else {
        reveal_with_fuel(hunk_laws::window_text, 4);
        assert(all[0] == "--- /dev/null"@ && all[1] == "+++ "@ + name && all[2]
            == "@@ -0,0 +1,"@ + n + " @@"@);
        assert(hunk_laws::window_text(all, 0, 3) =~= head + diffs::marked_lines(lines, 0));
    }
}

/// The difference that a new file makes: behind three lines that say so, each of its lines, marked
/// with a plus sign. It is cut behind four thousand bytes, with a note. An empty file makes none.
pub proof fn law_new_file_difference(path: Seq<char>, lines: Seq<Seq<char>>)
    requires
        paths::file_name(path) is Some,
    ensures
        lines.len() == 0 ==> diffs::add_diff(path, lines) is None,
        lines.len() > 0 ==> {
            let all = difference_lines(paths::file_name(path)->0, lines);
            let whole = hunk_laws::window_text(all, 0, all.len() as int);
            &&& sizes::byte_len(whole) <= 4000 ==> diffs::add_diff(path, lines) == Some(whole)
            &&& sizes::byte_len(whole) > 4000 ==> (diffs::add_diff(path, lines) matches Some(d)
                && exists|k: int|
                0 <= k < whole.len() && sizes::byte_len(#[trigger] whole.take(k)) <= 4000 && d
                    == whole.take(k) + "\n... [diff truncated]"@)
        },
{
    if lines.len() > 0 {
        let name = paths::file_name(path)->0;
        lemma_difference(name, lines, lines.len() as int);
        let all = difference_lines(name, lines);
        let whole = hunk_laws::window_text(all, 0, all.len() as int);
        if sizes::byte_len(whole) > 4000 {
            sizes::lemma_clip(whole, 4000);
            let k = sizes::fitting(whole, 4000);
            if k == whole.len() {
                assert(whole.take(k) =~= whole);
            }
            assert(whole.take(k) == sizes::clip(whole, 4000));
        }
    }
}

/// A difference that is there is shown whole, up to four thousand bytes; a longer one is cut, with a
/// note. Where nothing differs, none is shown. It has three lines round each change, and the path as
/// the name of both sides.
pub proof fn law_difference(before: Seq<char>, after: Seq<char>, path: Seq<char>)
    ensures
        ({
            let whole = diffs::unified_text(before, after, 3, path, path);
            let shown = diffs::update_diff(before, after, path);
            &&& whole.len() == 0 ==> shown is None
            &&& whole.len() > 0 && sizes::byte_len(whole) <= 4000 ==> shown == Some(whole)
            &&& whole.len() > 0 && sizes::byte_len(whole) > 4000 ==> (shown matches Some(d)
                && exists|k: int|
                0 <= k < whole.len() && sizes::byte_len(#[trigger] whole.take(k)) <= 4000 && d
                    == whole.take(k) + "\n... [diff truncated]"@)
        }),
{
    let whole = diffs::unified_text(before, after, 3, path, path);
    if sizes::byte_len(whole) > 4000 {
        sizes::lemma_clip(whole, 4000);
        let k = sizes::fitting(whole, 4000);
        if k == whole.len() {
            assert(whole.take(k) =~= whole);
        }
        assert(whole.take(k) == sizes::clip(whole, 4000));
    }
}

// ---------------------------------------------------------------------------
// Reports
// ---------------------------------------------------------------------------

/// An operation that failed is reported with its message, and with its details where there are any;
/// of any other, what it shows is the report.
pub proof fn law_report_of_operation(r: outcome::OpResultView, details: Seq<char>)
    ensures
        outcome::failed(r.status) ==> report::op_text(r, None) == "[ERROR] "@ + r.op_type + " — "@
            + r.path + ": "@ + r.message && report::op_text(r, Some(details)) == "[ERROR] "@
            + r.op_type + " — "@ + r.path + ": "@ + r.message + "\n```json\n"@ + details + "\n```"@,
        !outcome::failed(r.status) && r.output is Some ==> report::op_text(r, None) == r.output->0
            && report::op_text(r, Some(details)) == r.output->0,
{
}

/// An operation that changed files is reported with a mark, what it was and of which file, how many
/// lines there were and are, its warnings and its place in the batch. What follows is why it was
/// given up, how its places were found, and what it made different.
pub proof fn law_report_of_change(r: outcome::OpResultView, b: usize, a: usize)
    requires
        !outcome::failed(r.status),
        r.output is None,
        r.line_changes == Some((b, a)),
        r.warnings.len() == 0,
        r.batch_index is None,
        r.rollback_reason is None,
        r.match_info is None,
        r.diff is None,
    ensures
        ({
            let mark = if r.status is Skipped {
                "○"@
            } else if r.status is ValidationWarning {
                "!"@
            } else {
                "✓"@
            };
            let text = report::op_text(r, None);
            let head = mark + " "@ + r.op_type + " — "@ + r.path;
            &&& r.op_type == "update"@ || r.op_type == "write"@ ==> text == head + (" ("@
                + numbers::decimal(b as nat) + " → "@ + numbers::decimal(a as nat) + " lines)"@)
            &&& r.op_type == "add"@ ==> text == head + (" ("@ + numbers::decimal(a as nat)
                + " lines)"@)
            &&& r.op_type == "delete"@ ==> text == head + (" ("@ + r.message + ")"@)
            &&& r.op_type == "move"@ ==> text == head
        }),
{
    reveal_strlit("update");
    reveal_strlit("write");
    reveal_strlit("add");
    reveal_strlit("delete");
    reveal_strlit("move");
    assert("update"@[0] == 'u' && "write"@[0] == 'w' && "add"@[0] == 'a' && "delete"@[0] == 'd'
        && "move"@[0] == 'm');
    let none = Seq::<Seq<char>>::empty();
    let head = report::op_header(r);
    let parts = seq![head] + none + none + none;
    assert(report::reason_lines(None) =~= none);
    assert(report::match_lines(r) =~= none);
    assert(report::diff_lines(None) =~= none);
    assert(parts =~= seq![head]);
    assert(text::join(seq![head], "\n"@) == head);
    let mark = report::status_mark(r.status);
    let short = mark + " "@ + r.op_type + " — "@ + r.path;
    assert(head =~= short + report::size_note(r));
    assert(short + Seq::<char>::empty() =~= short);
}

/// Warnings and the place in the batch follow what is said of an operation.
pub proof fn law_report_header(r: outcome::OpResultView, i: usize, n: usize)
    requires
        r.batch_index == Some(i),
        r.batch_total == Some(n),
    ensures
        text::ends_with(
            report::op_header(r),
            " ["@ + numbers::decimal(i as nat) + "/"@ + numbers::decimal(n as nat) + "]"@,
        ),
        r.warnings.len() > 0 ==> text::contains(
            report::op_header(r),
            " [warnings: "@ + text::join(r.warnings, "; "@) + "]"@,
        ),
{
    let place = " ["@ + numbers::decimal(i as nat) + "/"@ + numbers::decimal(n as nat) + "]"@;
    let front = report::status_mark(r.status) + " "@ + r.op_type + " — "@ + r.path
        + report::size_note(r) + report::warning_text(r.warnings);
    assert(report::op_header(r) =~= front + place);
    text_laws::law_ends(front, place);
    if r.warnings.len() > 0 {
        let w = " [warnings: "@ + text::join(r.warnings, "; "@) + "]"@;
        let before = report::status_mark(r.status) + " "@ + r.op_type + " — "@ + r.path
            + report::size_note(r);
        let k = before.len() as int;
        let whole = report::op_header(r);
        assert(whole.subrange(k, k + w.len()) =~= w);
        text::lemma_contains(whole, w, k);
    }
}

/// Of a difference the first five lines are reported, three spaces in, and how many more there are.
pub proof fn law_report_of_difference(d: Seq<char>, i: int)
    ensures
        ({
            let all = text::lines(d);
            let shown = report::diff_lines(Some(d));
            &&& all.len() <= 5 ==> shown.len() == all.len()
            &&& all.len() > 5 ==> shown.len() == 6 && shown[5] == "   ... (+"@ + numbers::decimal(
                (all.len() - 5) as nat,
            ) + " more lines)"@
            &&& 0 <= i < all.len() && i < 5 ==> shown[i] == "   "@ + all[i]
        }),
        report::diff_lines(None).len() == 0,
{
}

/// The report has the report of each operation, in their order, behind a line that sums them up, and
/// behind another that says so where they were only tried.
pub proof fn law_report(
    summary: ExecutionSummary,
    ok: bool,
    results: Seq<outcome::OpResultView>,
    details: Seq<Option<Seq<char>>>,
)
    requires
        results.len() > 0,
        details.len() == results.len(),
        summary.total_operations > 0,
    ensures
        ({
            let texts = Seq::new(
                results.len(),
                |i: int| report::op_text(results[i], details[i]),
            );
            let sum = report::summary_text(summary, ok);
            &&& report::report_text(summary, ok, false, results, details) == sum + "\n"@
                + text::join(texts, "\n"@)
            &&& report::report_text(summary, ok, true, results, details)
                == "DRY RUN: preview only; no filesystem changes were committed."@ + "\n"@ + (sum
                + "\n"@ + text::join(texts, "\n"@))
        }),
{
    let texts = Seq::new(results.len(), |i: int| report::op_text(results[i], details[i]));
    assert(report::op_texts(results, details) =~= texts);
    let sum = report::summary_text(summary, ok);
    let dry = "DRY RUN: preview only; no filesystem changes were committed."@;
    text_laws::law_joined(seq![sum], texts, sum, "\n"@);
    text_laws::law_joined(seq![dry], seq![sum] + texts, dry, "\n"@);
    assert(seq![dry, sum] + texts =~= seq![dry] + (seq![sum] + texts));
    assert(text::join(seq![dry], "\n"@) == dry);
    assert(text::join(seq![sum], "\n"@) == sum);
}

/// A report of nothing says so.
pub proof fn law_empty_report(summary: ExecutionSummary, ok: bool, dry_run: bool)
    requires
        summary.total_operations == 0,
    ensures
        report::report_text(summary, ok, dry_run, Seq::empty(), Seq::empty())
            == "No operations performed."@,
{
}

/// One for each kind of operation that there was.
pub open spec fn kind(n: usize) -> int {
    if n > 0 {
        1
    } else {
        0
    }
}

/// The line that sums operations up says how many there were, and of each kind that there was how
/// many, and of no other.
pub proof fn law_summary_line(s: ExecutionSummary, ok: bool)
    ensures
        ({
            let parts = report::summary_parts(s);
            let head = (if ok {
                "✓"@
            } else {
                "!"@
            }) + " "@ + numbers::decimal(s.total_operations as nat) + " operations processed"@;
            &&& parts.len() == kind(s.add_operations) + kind(s.write_operations) + kind(
                s.update_operations,
            ) + kind(s.delete_operations) + kind(s.move_operations) + kind(s.read_operations)
                + kind(s.map_operations)
            &&& s.add_operations > 0 ==> parts.contains(
                numbers::decimal(s.add_operations as nat) + " created"@,
            )
            &&& s.write_operations > 0 ==> parts.contains(
                numbers::decimal(s.write_operations as nat) + " written"@,
            )
            &&& s.update_operations > 0 ==> parts.contains(
                numbers::decimal(s.update_operations as nat) + " updated"@,
            )
            &&& s.delete_operations > 0 ==> parts.contains(
                numbers::decimal(s.delete_operations as nat) + " deleted"@,
            )
            &&& s.move_operations > 0 ==> parts.contains(
                numbers::decimal(s.move_operations as nat) + " moved"@,
            )
            &&& s.read_operations > 0 ==> parts.contains(
                numbers::decimal(s.read_operations as nat) + " read"@,
            )
            &&& s.map_operations > 0 ==> parts.contains(
                numbers::decimal(s.map_operations as nat) + " mapped"@,
            )
            &&& parts.len() == 0 ==> report::summary_text(s, ok) == head
            &&& parts.len() > 0 ==> report::summary_text(s, ok) == head + " ("@ + text::join(
                parts,
                ", "@,
            ) + ")"@
        }),
{
    let p0 = Seq::<Seq<char>>::empty();
    let p1 = report::with_part(p0, s.add_operations, " created"@);
    let p2 = report::with_part(p1, s.write_operations, " written"@);
    let p3 = report::with_part(p2, s.update_operations, " updated"@);
    let p4 = report::with_part(p3, s.delete_operations, " deleted"@);
    let p5 = report::with_part(p4, s.move_operations, " moved"@);
    let p6 = report::with_part(p5, s.read_operations, " read"@);
    let p7 = report::with_part(p6, s.map_operations, " mapped"@);
    let a = numbers::decimal(s.add_operations as nat) + " created"@;
    let b = numbers::decimal(s.write_operations as nat) + " written"@;
    let c = numbers::decimal(s.update_operations as nat) + " updated"@;
    let d = numbers::decimal(s.delete_operations as nat) + " deleted"@;
    let e = numbers::decimal(s.move_operations as nat) + " moved"@;
    let f = numbers::decimal(s.read_operations as nat) + " read"@;
    let g = numbers::decimal(s.map_operations as nat) + " mapped"@;
    lemma_part(p0, s.add_operations, " created"@, a);
    lemma_part(p1, s.write_operations, " written"@, a);
    lemma_part(p2, s.update_operations, " updated"@, a);
    lemma_part(p3, s.delete_operations, " deleted"@, a);
    lemma_part(p4, s.move_operations, " moved"@, a);
    lemma_part(p5, s.read_operations, " read"@, a);
    lemma_part(p6, s.map_operations, " mapped"@, a);
    lemma_part(p2, s.update_operations, " updated"@, b);
    lemma_part(p3, s.delete_operations, " deleted"@, b);
    lemma_part(p4, s.move_operations, " moved"@, b);
    lemma_part(p5, s.read_operations, " read"@, b);
    lemma_part(p6, s.map_operations, " mapped"@, b);
    lemma_part(p3, s.delete_operations, " deleted"@, c);
    lemma_part(p4, s.move_operations, " moved"@, c);
    lemma_part(p5, s.read_operations, " read"@, c);
    lemma_part(p6, s.map_operations, " mapped"@, c);
    lemma_part(p4, s.move_operations, " moved"@, d);
    lemma_part(p5, s.read_operations, " read"@, d);
    lemma_part(p6, s.map_operations, " mapped"@, d);
    lemma_part(p5, s.read_operations, " read"@, e);
    lemma_part(p6, s.map_operations, " mapped"@, e);
    lemma_part(p6, s.map_operations, " mapped"@, f);
    assert(report::summary_parts(s) == p7);
}

/// A part more.
proof fn lemma_part(parts: Seq<Seq<char>>, n: usize, what: Seq<char>, x: Seq<char>)
    ensures
        ({
            let after = report::with_part(parts, n, what);
            &&& after.len() == parts.len() + kind(n)
            &&& parts.contains(x) ==> after.contains(x)
            &&& n > 0 ==> after.contains(numbers::decimal(n as nat) + what)
        }),
{
    let after = report::with_part(parts, n, what);
    if parts.contains(x) {
        let i = choose|i: int| 0 <= i < parts.len() && parts[i] == x;
        assert(after[i] == x);
    }
    if n > 0 {
        assert(after[parts.len() as int] == numbers::decimal(n as nat) + what);
    }
}

/// The words for how an operation ended.
pub proof fn law_status_words()
    ensures
        outcome::status_text(OpStatus::Success) == "ok"@,
        outcome::status_text(OpStatus::Skipped) == "skipped"@,
        outcome::status_text(OpStatus::RecoverableError) == "recoverable_error"@,
        outcome::status_text(OpStatus::FatalError) == "fatal_error"@,
        outcome::status_text(OpStatus::ValidationWarning) == "validation_warning"@,
        !outcome::failed(OpStatus::Success) && !outcome::failed(OpStatus::Skipped)
            && !outcome::failed(OpStatus::ValidationWarning),
        outcome::failed(OpStatus::RecoverableError) && outcome::failed(OpStatus::FatalError),
{
}

/// What follows the first line of a report of a change: why it was given up, how its place was found,
/// and what it made different, in this order.
pub proof fn law_parts_of_report(
    r: outcome::OpResultView,
    reason: Seq<char>,
    info: Seq<char>,
    d: Seq<char>,
)
    requires
        !outcome::failed(r.status),
        r.output is None,
        r.rollback_reason == Some(reason),
        r.match_info == Some(info),
        r.diff == Some(d),
        text::lines(d).len() > 0,
        r.op_type == "update"@,
        !text::contains(info, "; "@),
    ensures
        report::op_text(r, None) == report::op_header(r) + "\n"@ + ("  "@ + reason) + "\n"@ + ("  "@
            + info) + "\n"@ + text::join(report::diff_lines(Some(d)), "\n"@),
{
    let head = report::op_header(r);
    let (a, b) = ("  "@ + reason, "  "@ + info);
    let rest = report::diff_lines(Some(d));
    law_report_of_difference(d, 0);
    text_laws::law_joined(seq![head], seq![a], head, "\n"@);
    text_laws::law_joined(seq![a], seq![b], a, "\n"@);
    text_laws::law_joined(seq![b], seq![b], b, "\n"@);
    text_laws::law_joined(seq![head] + seq![a], seq![b], head, "\n"@);
    text_laws::law_joined(seq![head] + seq![a] + seq![b], rest, head, "\n"@);
    assert(report::match_lines(r) =~= seq![b]);
    assert(report::reason_lines(r.rollback_reason) =~= seq![a]);
    assert(text::join(seq![head], "\n"@) == head);
    assert(text::join(seq![a], "\n"@) == a);
    assert(text::join(seq![b], "\n"@) == b);
}

/// The first line of a report of a change, part by part.
pub proof fn law_parts_of_header(r: outcome::OpResultView)
    ensures
        ({
            let mark = if r.status is Skipped {
                "○"@
            } else if r.status is ValidationWarning {
                "!"@
            } else {
                "✓"@
            };
            let note = match r.line_changes {
                Some((b, a)) => if r.op_type == "update"@ || r.op_type == "write"@ {
                    " ("@ + numbers::decimal(b as nat) + " → "@ + numbers::decimal(a as nat)
                        + " lines)"@
                } else if r.op_type == "add"@ {
                    " ("@ + numbers::decimal(a as nat) + " lines)"@
                } else {
                    Seq::empty()
                },
                None => Seq::empty(),
            };
            let warned = if r.warnings.len() > 0 {
                " [warnings: "@ + text::join(r.warnings, "; "@) + "]"@
            } else {
                Seq::empty()
            };
            let place = match (r.batch_index, r.batch_total) {
                (Some(i), Some(n)) => " ["@ + numbers::decimal(i as nat) + "/"@ + numbers::decimal(
                    n as nat,
                ) + "]"@,
                _ => Seq::empty(),
            };
            r.op_type != "delete"@ ==> report::op_header(r) == mark + " "@ + r.op_type + " — "@
                + r.path + note + warned + place
        }),
{
    reveal_strlit("update");
    reveal_strlit("write");
    reveal_strlit("add");
    reveal_strlit("delete");
    assert("update"@[0] == 'u' && "write"@[0] == 'w' && "add"@[0] == 'a' && "delete"@[0] == 'd');
}

} // verus!
