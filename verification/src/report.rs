//! What is said of a batch, as text.

use vstd::prelude::*;
use vstd::string::*;

use crate::batch::{ExecutionReport, ExecutionSummary};
use crate::error::{cat2, cat3};
use crate::lists;
use crate::numbers;
use crate::numbers::decimal_of;
use crate::outcome;
use crate::outcome::{OpResult, OpStatus};
use crate::text;
use crate::text::{chars_of, join_texts, lines_of, place_of, same_text, slice_of, string_of, trimmed};

verus! {

broadcast use crate::lists::group_lists;

/// How a batch is answered.
#[derive(Debug, Clone, Copy, PartialEq, Eq, Structural)]
pub enum ResponseFormat {
    /// As text to read.
    Text,
    /// As JSON.
    Json,
}

impl Default for ResponseFormat {
    fn default() -> (r: ResponseFormat)
        ensures
            r == ResponseFormat::Text,
    {
        ResponseFormat::Text
    }
}

// ---------------------------------------------------------------------------
// Parts
// ---------------------------------------------------------------------------

/// The pieces of a text between the separators `sep`.
pub open spec fn pieces(s: Seq<char>, sep: Seq<char>) -> Seq<Seq<char>>
    decreases s.len(),
{
    match text::find(s, sep) {
        Some(k) => if 0 <= k && sep.len() > 0 && k + sep.len() <= s.len() {
            seq![s.take(k)] + pieces(s.skip(k + sep.len()), sep)
        } else {
            seq![s]
        },
        None => seq![s],
    }
}

/// The pieces of a text between the separators `sep`.
pub fn split_text(s: &str, sep: &str) -> (r: Vec<Vec<char>>)
    requires
        sep@.len() > 0,
    ensures
        lists::rows(r@) == pieces(s@, sep@),
{
    let p = chars_of(sep);
    let mut rest = chars_of(s);
    let mut out: Vec<Vec<char>> = Vec::new();
    assert(lists::rows(out@) + pieces(s@, sep@) =~= pieces(s@, sep@));
    loop
        invariant_except_break
            p@ == sep@,
            sep@.len() > 0,
            lists::rows(out@) + pieces(rest@, sep@) == pieces(s@, sep@),
        ensures
            lists::rows(out@) == pieces(s@, sep@),
        decreases rest@.len(),
    {
        let n: usize = rest.len();
        let ghost before = lists::rows(out@);
        match place_of(&rest, &p) {
            Some(k) => {
                proof {
                    text::lemma_find(rest@, sep@);
                }
                let piece = slice_of(&rest, 0, k);
                let more = slice_of(&rest, k + p.len(), n);
                assert(piece@ =~= rest@.take(k as int));
                assert(more@ =~= rest@.skip(k + sep@.len()));
                out.push(piece);
                assert(lists::rows(out@) + pieces(more@, sep@) =~= before + pieces(rest@, sep@));
                rest = more;
            },
            None => {
                let ghost last = rest@;
                out.push(rest);
                assert(lists::rows(out@) =~= before + pieces(last, sep@));
                break;
            },
        }
    }
    out
}

/// The place of an operation in its batch, as text.
pub open spec fn batch_text(index: Option<usize>, total: Option<usize>) -> Seq<char> {
    match (index, total) {
        (Some(i), Some(n)) => " ["@ + numbers::decimal(i as nat) + "/"@ + numbers::decimal(
            n as nat,
        ) + "]"@,
        _ => Seq::empty(),
    }
}

/// The place of an operation in its batch, as text.
pub fn format_batch(batch_index: &Option<usize>, batch_total: &Option<usize>) -> (r: String)
    ensures
        r@ == batch_text(*batch_index, *batch_total),
{
    match (batch_index, batch_total) {
        (Some(i), Some(n)) => {
            let mut s = cat3(" [", decimal_of(*i).as_str(), "/");
            s.append(decimal_of(*n).as_str());
            s.append("]");
            s
        },
        _ => {
            let none = String::new();
            assert(none@ =~= Seq::empty());
            none
        },
    }
}

/// A part of a summary, where there is something to count.
pub open spec fn with_part(parts: Seq<Seq<char>>, n: usize, what: Seq<char>) -> Seq<Seq<char>> {
    if n > 0 {
        parts.push(numbers::decimal(n as nat) + what)
    } else {
        parts
    }
}

/// The parts of a summary.
pub open spec fn summary_parts(s: ExecutionSummary) -> Seq<Seq<char>> {
    let p0 = Seq::<Seq<char>>::empty();
    let p1 = with_part(p0, s.add_operations, " created"@);
    let p2 = with_part(p1, s.write_operations, " written"@);
    let p3 = with_part(p2, s.update_operations, " updated"@);
    let p4 = with_part(p3, s.delete_operations, " deleted"@);
    let p5 = with_part(p4, s.move_operations, " moved"@);
    let p6 = with_part(p5, s.read_operations, " read"@);
    with_part(p6, s.map_operations, " mapped"@)
}

/// A summary in one line.
pub open spec fn summary_text(s: ExecutionSummary, ok: bool) -> Seq<char> {
    let head = (if ok {
        "✓"@
    } else {
        "!"@
    }) + " "@ + numbers::decimal(s.total_operations as nat) + " operations processed"@;
    if summary_parts(s).len() == 0 {
        head
    } else {
        head + " ("@ + text::join(summary_parts(s), ", "@) + ")"@
    }
}

/// Adds a part to a summary, where there is something to count.
fn push_part(parts: &mut Vec<String>, n: usize, what: &str)
    ensures
        lists::texts(final(parts)@) == with_part(lists::texts(old(parts)@), n, what@),
{
    if n > 0 {
        parts.push(cat2(decimal_of(n).as_str(), what));
    }
}

/// A summary in one line.
pub fn summary_line(summary: &ExecutionSummary, ok: bool) -> (r: String)
    ensures
        r@ == summary_text(*summary, ok),
{
    let mut parts: Vec<String> = Vec::new();
    assert(lists::texts(parts@) =~= Seq::<Seq<char>>::empty());
    push_part(&mut parts, summary.add_operations, " created");
    push_part(&mut parts, summary.write_operations, " written");
    push_part(&mut parts, summary.update_operations, " updated");
    push_part(&mut parts, summary.delete_operations, " deleted");
    push_part(&mut parts, summary.move_operations, " moved");
    push_part(&mut parts, summary.read_operations, " read");
    push_part(&mut parts, summary.map_operations, " mapped");
    assert(lists::texts(parts@) == summary_parts(*summary));
    assert(parts@.len() == lists::texts(parts@).len());
    let mut out = cat3(
        if ok { "✓" } else { "!" },
        " ",
        decimal_of(summary.total_operations).as_str(),
    );
    out.append(" operations processed");
    if parts.len() > 0 {
        out.append(" (");
        out.append(join_texts(&parts, ", ").as_str());
        out.append(")");
    }
    out
}

// ---------------------------------------------------------------------------
// Operations
// ---------------------------------------------------------------------------

/// The mark of a status.
pub open spec fn status_mark(status: OpStatus) -> Seq<char> {
    match status {
        OpStatus::Skipped => "○"@,
        OpStatus::ValidationWarning => "!"@,
        _ => "✓"@,
    }
}

/// The warnings of an operation, as text.
pub open spec fn warning_text(warnings: Seq<Seq<char>>) -> Seq<char> {
    if warnings.len() == 0 {
        Seq::empty()
    } else {
        " [warnings: "@ + text::join(warnings, "; "@) + "]"@
    }
}

/// What is said of the size of a change.
pub open spec fn size_note(r: outcome::OpResultView) -> Seq<char> {
    if r.op_type == "update"@ || r.op_type == "write"@ {
        match r.line_changes {
            Some((before, after)) => " ("@ + numbers::decimal(before as nat) + " → "@
                + numbers::decimal(after as nat) + " lines)"@,
            None => Seq::empty(),
        }
    } else if r.op_type == "add"@ {
        match r.line_changes {
            Some((_, after)) => " ("@ + numbers::decimal(after as nat) + " lines)"@,
            None => Seq::empty(),
        }
    } else if r.op_type == "delete"@ {
        " ("@ + r.message + ")"@
    } else {
        Seq::empty()
    }
}

/// The first line of what is said of an operation.
pub open spec fn op_header(r: outcome::OpResultView) -> Seq<char> {
    status_mark(r.status) + " "@ + r.op_type + " — "@ + r.path + size_note(r) + warning_text(
        r.warnings,
    ) + batch_text(r.batch_index, r.batch_total)
}

/// What is said of where the hunks of an update were applied.
pub open spec fn match_lines(r: outcome::OpResultView) -> Seq<Seq<char>> {
    match r.match_info {
        Some(info) => if r.op_type != "update"@ {
            Seq::empty()
        } else if text::contains(info, "; "@) {
            let parts = pieces(info, "; "@);
            Seq::new(
                parts.len(),
                |i: int|
                    "  Hunk "@ + numbers::decimal((i + 1) as nat) + ": "@ + text::trim(parts[i]),
            )
        } else {
            seq!["  "@ + info]
        },
        None => Seq::empty(),
    }
}

/// How many lines of a difference are shown.
pub const SHOWN_DIFF_LINES: usize = 5;

/// What is shown of a difference.
pub open spec fn diff_lines(diff: Option<Seq<char>>) -> Seq<Seq<char>> {
    match diff {
        Some(d) => {
            let all = text::lines(d).map_values(|l: Seq<char>| "   "@ + l);
            if all.len() > SHOWN_DIFF_LINES {
                all.take(SHOWN_DIFF_LINES as int).push(
                    "   ... (+"@ + numbers::decimal((all.len() - SHOWN_DIFF_LINES) as nat)
                        + " more lines)"@,
                )
            } else {
                all
            }
        },
        None => Seq::empty(),
    }
}

/// What is said of why an operation has no effect.
pub open spec fn reason_lines(reason: Option<Seq<char>>) -> Seq<Seq<char>> {
    match reason {
        Some(m) => seq!["  "@ + m],
        None => Seq::empty(),
    }
}

/// What is said of an operation. `details` is the error in fields, as text.
pub open spec fn op_text(r: outcome::OpResultView, details: Option<Seq<char>>) -> Seq<char> {
    if outcome::failed(r.status) {
        let base = "[ERROR] "@ + r.op_type + " — "@ + r.path + ": "@ + r.message;
        match details {
            Some(d) => base + "\n```json\n"@ + d + "\n```"@,
            None => base,
        }
    } else if let Some(output) = r.output {
        output
    } else {
        text::join(
            seq![op_header(r)] + reason_lines(r.rollback_reason) + match_lines(r) + diff_lines(
                r.diff,
            ),
            "\n"@,
        )
    }
}

/// What is said of the size of a change.
fn say_size(op: &OpResult) -> (r: String)
    ensures
        r@ == size_note(op@),
{
    let t = op.op_type.as_str();
    if same_text(t, "update") || same_text(t, "write") {
        if let Some((before, after)) = op.line_changes {
            let mut s = cat3(" (", decimal_of(before).as_str(), " → ");
            s.append(decimal_of(after).as_str());
            s.append(" lines)");
            return s;
        }
    } else if same_text(t, "add") {
        if let Some((_, after)) = op.line_changes {
            return cat3(" (", decimal_of(after).as_str(), " lines)");
        }
    } else if same_text(t, "delete") {
        return cat3(" (", op.message.as_str(), ")");
    }
    let none = String::new();
    assert(none@ =~= Seq::empty());
    none
}

/// The first line of what is said of an operation.
fn say_header(op: &OpResult) -> (r: String)
    ensures
        r@ == op_header(op@),
{
    let mark = match op.status {
        OpStatus::Skipped => "○",
        OpStatus::ValidationWarning => "!",
        _ => "✓",
    };
    let mut s = cat3(mark, " ", op.op_type.as_str());
    s.append(" — ");
    s.append(op.path.as_str());
    s.append(say_size(op).as_str());
    assert(op@.warnings.len() == op.warnings@.len());
    let warnings = if op.warnings.len() == 0 {
        let none = String::new();
        assert(none@ =~= Seq::empty());
        none
    } else {
        cat3(" [warnings: ", join_texts(&op.warnings, "; ").as_str(), "]")
    };
    s.append(warnings.as_str());
    s.append(format_batch(&op.batch_index, &op.batch_total).as_str());
    s
}

/// Adds what is said of where the hunks of an update were applied.
fn push_match_lines(lines: &mut Vec<String>, op: &OpResult)
    ensures
        lists::texts(final(lines)@) == lists::texts(old(lines)@) + match_lines(op@),
{
    let ghost start = lists::texts(lines@);
    assert(start + Seq::<Seq<char>>::empty() =~= start);
    if let Some(info) = &op.match_info {
        if same_text(op.op_type.as_str(), "update") {
            if place_of(&chars_of(info.as_str()), &chars_of("; ")).is_some() {
                proof {
                    reveal_strlit("; ");
                }
                let parts = split_text(info.as_str(), "; ");
                let ghost all = match_lines(op@);
                let n: usize = parts.len();
                assert(n == pieces(info@, "; "@).len());
                let mut i: usize = 0;
                assert(start + all.take(0) =~= start);
                while i < n
                    invariant
                        0 <= i <= n == parts@.len() == all.len(),
                        lists::rows(parts@) == pieces(info@, "; "@),
                        all == Seq::new(
                            pieces(info@, "; "@).len(),
                            |i: int|
                                "  Hunk "@ + numbers::decimal((i + 1) as nat) + ": "@ + text::trim(
                                    pieces(info@, "; "@)[i],
                                ),
                        ),
                        lists::texts(lines@) == start + all.take(i as int),
                    decreases n - i,
                {
                    let mut line = cat3("  Hunk ", decimal_of(i + 1).as_str(), ": ");
                    line.append(string_of(&trimmed(&parts[i])).as_str());
                    assert(lists::rows(parts@)[i as int] == parts@[i as int]@);
                    assert(line@ == all[i as int]);
                    lines.push(line);
                    i += 1;
                    assert(lists::texts(lines@) =~= start + all.take(i as int));
                }
                assert(all.take(n as int) =~= all);
            } else {
                let line = cat2("  ", info.as_str());
                lines.push(line);
                assert(lists::texts(lines@) =~= start + seq![line@]);
            }
        }
    }
}

/// Adds what is shown of a difference.
fn push_diff_lines(lines: &mut Vec<String>, diff: &Option<String>)
    ensures
        lists::texts(final(lines)@) == lists::texts(old(lines)@) + diff_lines(
            lists::opt_text(*diff),
        ),
{
    let ghost start = lists::texts(lines@);
    assert(start + Seq::<Seq<char>>::empty() =~= start);
    if let Some(d) = diff {
        let all_lines = lines_of(d.as_str());
        let ghost all = text::lines(d@).map_values(|l: Seq<char>| "   "@ + l);
        let total: usize = all_lines.len();
        assert(total == text::lines(d@).len());
        let n: usize = if total > SHOWN_DIFF_LINES {
            SHOWN_DIFF_LINES
        } else {
            total
        };
        let mut i: usize = 0;
        assert(start + all.take(0) =~= start);
        while i < n
            invariant
                0 <= i <= n <= total == all_lines@.len() == all.len(),
                lists::texts(all_lines@) == text::lines(d@),
                all == text::lines(d@).map_values(|l: Seq<char>| "   "@ + l),
                lists::texts(lines@) == start + all.take(i as int),
            decreases n - i,
        {
            let line = cat2("   ", all_lines[i].as_str());
            assert(text::lines(d@)[i as int] == all_lines@[i as int]@);
            lines.push(line);
            i += 1;
            assert(lists::texts(lines@) =~= start + all.take(i as int));
        }
        if total > SHOWN_DIFF_LINES {
            let line = cat3(
                "   ... (+",
                decimal_of(total - SHOWN_DIFF_LINES).as_str(),
                " more lines)",
            );
            lines.push(line);
            assert(lists::texts(lines@) =~= start + all.take(n as int).push(line@));
        } else {
            assert(all.take(n as int) =~= all);
        }
    }
}

/// What is said of an operation. `details` is the error in fields, as text.
pub fn format_operation_text(op: &OpResult, details: &Option<String>) -> (r: String)
    ensures
        r@ == op_text(op@, lists::opt_text(*details)),
{
    if op.status.is_error() {
        let mut s = cat3("[ERROR] ", op.op_type.as_str(), " — ");
        s.append(op.path.as_str());
        s.append(": ");
        s.append(op.message.as_str());
        if let Some(d) = details {
            s.append("\n```json\n");
            s.append(d.as_str());
            s.append("\n```");
        }
        return s;
    }
    if let Some(output) = &op.output {
        return output.clone();
    }
    let mut lines: Vec<String> = Vec::new();
    lines.push(say_header(op));
    assert(lists::texts(lines@) =~= seq![op_header(op@)]);
    let ghost head = lists::texts(lines@);
    if let Some(m) = &op.rollback_reason {
        let line = cat2("  ", m.as_str());
        lines.push(line);
        assert(lists::texts(lines@) =~= head + seq![line@]);
    } else {
        assert(head + Seq::<Seq<char>>::empty() =~= head);
    }
    push_match_lines(&mut lines, op);
    push_diff_lines(&mut lines, &op.diff);
    join_texts(&lines, "\n")
}

// ---------------------------------------------------------------------------
// Batches
// ---------------------------------------------------------------------------

/// What is said of the first `k` operations.
pub open spec fn op_texts(
    results: Seq<outcome::OpResultView>,
    details: Seq<Option<Seq<char>>>,
) -> Seq<Seq<char>> {
    Seq::new(results.len(), |i: int| op_text(results[i], details[i]))
}

/// What is said of a batch before its operations.
pub open spec fn report_head(summary: ExecutionSummary, ok: bool, dry_run: bool) -> Seq<Seq<char>> {
    if summary.total_operations == 0 {
        Seq::empty()
    } else if dry_run {
        seq![
            "DRY RUN: preview only; no filesystem changes were committed."@,
            summary_text(summary, ok),
        ]
    } else {
        seq![summary_text(summary, ok)]
    }
}

/// What is said of a batch.
pub open spec fn report_text(
    summary: ExecutionSummary,
    ok: bool,
    dry_run: bool,
    results: Seq<outcome::OpResultView>,
    details: Seq<Option<Seq<char>>>,
) -> Seq<char> {
    let lines = report_head(summary, ok, dry_run) + op_texts(results, details);
    if lines.len() == 0 {
        "No operations performed."@
    } else {
        text::join(lines, "\n"@)
    }
}

/// The texts of a list of optional strings.
pub open spec fn opt_texts(v: Seq<Option<String>>) -> Seq<Option<Seq<char>>> {
    v.map_values(|s: Option<String>| lists::opt_text(s))
}

/// What is said of a batch. `details` holds the error of each operation in fields, as text.
pub fn render_text_report(report: &ExecutionReport, details: &Vec<Option<String>>) -> (r: String)
    requires
        details@.len() == report.operations@.len(),
    ensures
        r@ == report_text(
            report.summary,
            report.ok,
            report.dry_run,
            outcome::result_views(report.operations@),
            opt_texts(details@),
        ),
{
    let mut lines: Vec<String> = Vec::new();
    let ghost head = report_head(report.summary, report.ok, report.dry_run);
    if report.summary.total_operations > 0 {
        if report.dry_run {
            lines.push("DRY RUN: preview only; no filesystem changes were committed.".to_owned());
        }
        lines.push(summary_line(&report.summary, report.ok));
    }
    assert(lists::texts(lines@) =~= head);
    let ghost results = outcome::result_views(report.operations@);
    let ghost all = op_texts(results, opt_texts(details@));
    let n: usize = report.operations.len();
    let mut i: usize = 0;
    assert(head + all.take(0) =~= head);
    while i < n
        invariant
            0 <= i <= n == report.operations@.len() == details@.len() == all.len(),
            results == outcome::result_views(report.operations@),
            all == op_texts(results, opt_texts(details@)),
            lists::texts(lines@) == head + all.take(i as int),
        decreases n - i,
    {
        assert(results[i as int] == report.operations@[i as int]@);
        assert(opt_texts(details@)[i as int] == lists::opt_text(details@[i as int]));
        let line = format_operation_text(&report.operations[i], &details[i]);
        assert(line@ == all[i as int]);
        lines.push(line);
        i += 1;
        assert(lists::texts(lines@) =~= head + all.take(i as int));
    }
    assert(all.take(n as int) =~= all);
    assert(lines@.len() == lists::texts(lines@).len());
    if lines.len() == 0 {
        "No operations performed.".to_owned()
    } else {
        join_texts(&lines, "\n")
    }
}

/// What is said of a request that is no batch.
pub fn render_error_text(message: &str) -> (r: String)
    ensures
        r@ == "PATCH ERROR: "@ + message@,
{
    cat2("PATCH ERROR: ", message)
}

} // verus!
