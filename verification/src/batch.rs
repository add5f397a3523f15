//! Batches: operations that are carried out in their order, on staged files, and take effect
//! together or not at all.

use vstd::prelude::*;
use vstd::string::*;

use crate::applier;
use crate::applier::{copy_files, has_failure, name_op, stage_op};
use crate::error::{cat2, cat3};
use crate::lists;
use crate::numbers;
use crate::numbers::decimal_of;
use crate::outcome;
use crate::outcome::{make_op, OpResult, OpStatus};
use crate::parser;
use crate::parser::ReadSpec;
use crate::patch;
use crate::patch::FileOp;
use crate::reading;
use crate::reading::{perform_map, perform_read};
use crate::sizes;
use crate::sizes::{byte_size, shortened};
use crate::text::{copy_opt, copy_texts, same_text};
use crate::workspace;
use crate::workspace::{PatchSession, StagedFile};

verus! {

broadcast use {crate::lists::group_lists, crate::outcome::lemma_result_views_push};

// ---------------------------------------------------------------------------
// Output
// ---------------------------------------------------------------------------

/// The most bytes that the operations of a batch show.
pub const MAX_TOTAL_OUTPUT_BYTES: usize = 2_097_152;

/// The most bytes that one operation shows.
pub const MAX_FILE_OUTPUT_BYTES: usize = 524_288;

/// What the operations of a batch have shown.
#[derive(Debug, Clone, Copy)]
pub struct OutputBudget {
    /// How many bytes.
    pub used: usize,
    /// Whether it was more than they may.
    pub spent: bool,
}

/// An output, cut to size.
pub open spec fn cut_output(output: Seq<char>) -> Seq<char> {
    sizes::shorten(
        output,
        MAX_FILE_OUTPUT_BYTES as int,
        "\n... [truncated: file exceeds 512KB limit]"@,
    )
}

/// What is left of an output, and what has been shown then.
pub open spec fn budgeted(output: Option<Seq<char>>, b: OutputBudget) -> (
    Option<Seq<char>>,
    OutputBudget,
) {
    match output {
        None => (None, b),
        Some(o) => {
            let cut = cut_output(o);
            if b.spent {
                (None, b)
            } else if b.used + sizes::byte_len(cut) > MAX_TOTAL_OUTPUT_BYTES {
                (
                    Some("... [truncated: total output exceeds 2MB limit]"@),
                    OutputBudget { used: MAX_TOTAL_OUTPUT_BYTES, spent: true },
                )
            } else {
                (
                    Some(cut),
                    OutputBudget { used: (b.used + sizes::byte_len(cut)) as usize, spent: false },
                )
            }
        },
    }
}

/// Cuts the output of an operation to what may still be shown.
pub fn apply_output_limits(op: OpResult, budget: OutputBudget) -> (r: (OpResult, OutputBudget))
    requires
        budget.used <= MAX_TOTAL_OUTPUT_BYTES,
    ensures
        r.0@ == (outcome::OpResultView { output: budgeted(op@.output, budget).0, ..op@ }),
        r.1 == budgeted(op@.output, budget).1,
        r.1.used <= MAX_TOTAL_OUTPUT_BYTES,
{
    let mut op = op;
    let ghost before = op@;
    let cut = match &op.output {
        None => {
            assert(op@ =~~= (outcome::OpResultView { output: None, ..before }));
            return (op, budget);
        },
        Some(o) => shortened(
            o.as_str(),
            MAX_FILE_OUTPUT_BYTES,
            "\n... [truncated: file exceeds 512KB limit]",
        ),
    };
    if budget.spent {
        op.output = None;
        assert(op@ =~~= (outcome::OpResultView { output: None, ..before }));
        return (op, budget);
    }
    let size: usize = byte_size(cut.as_str());
    if size > MAX_TOTAL_OUTPUT_BYTES - budget.used {
        op.output = Some("... [truncated: total output exceeds 2MB limit]".to_owned());
        assert(op@ =~~= (outcome::OpResultView {
            output: budgeted(before.output, budget).0,
            ..before
        }));
        return (op, OutputBudget { used: MAX_TOTAL_OUTPUT_BYTES, spent: true });
    }
    op.output = Some(cut);
    assert(op@ =~~= (outcome::OpResultView { output: budgeted(before.output, budget).0, ..before }));
    (op, OutputBudget { used: budget.used + size, spent: false })
}

// ---------------------------------------------------------------------------
// Running
// ---------------------------------------------------------------------------

/// Whether a result is that of an operation that changes files.
pub open spec fn is_mutating(op_type: Seq<char>) -> bool {
    op_type == "add"@ || op_type == "write"@ || op_type == "update"@ || op_type == "delete"@
        || op_type == "move"@
}

/// Whether a result is that of an operation that changes files.
pub fn is_mutating_result(op: &OpResult) -> (r: bool)
    ensures
        r == is_mutating(op@.op_type),
{
    let t = op.op_type.as_str();
    same_text(t, "add") || same_text(t, "write") || same_text(t, "update") || same_text(
        t,
        "delete",
    ) || same_text(t, "move")
}

/// The result of an operation that is not carried out, because an earlier one failed.
pub open spec fn skipped(
    op: patch::FileOpView,
    reason: Seq<char>,
    batch: Option<(usize, usize)>,
) -> outcome::OpResultView {
    let (op_type, path) = applier::op_name(op);
    outcome::OpResultView {
        rollback_reason: Some(reason),
        ..outcome::plain_result(
            path,
            op_type,
            OpStatus::Skipped,
            "Skipped due to earlier batch failure"@,
            batch,
        )
    }
}

/// The result of an operation that is not carried out.
pub fn skipped_result(op: &FileOp, message: &str, batch: Option<(usize, usize)>) -> (r: OpResult)
    ensures
        r@ == skipped(op@, message@, batch),
{
    let (op_type, path) = name_op(op);
    let mut result = make_op(
        path,
        op_type,
        OpStatus::Skipped,
        "Skipped due to earlier batch failure",
        batch,
    );
    result.rollback_reason = Some(message.to_owned());
    assert(result@ =~~= skipped(op@, message@, batch));
    result
}

/// A batch at work.
#[verifier::ext_equal]
pub struct BatchView {
    pub session: workspace::SessionView,
    pub results: Seq<outcome::OpResultView>,
    /// Why the batch is given up, where it is.
    pub rollback: Option<Seq<char>>,
    pub budget: OutputBudget,
}

/// The result of an operation of a batch.
pub open spec fn op_result(
    s: workspace::SessionView,
    op: patch::FileOpView,
    batch: Option<(usize, usize)>,
) -> outcome::OpResultView {
    match op {
        patch::FileOpView::Read { path, symbols, language, offset, limit } => {
            reading::read_result(
                s,
                parser::ReadView { path, symbols, language, offset, limit },
                batch,
            )
        },
        patch::FileOpView::MapDir { path, depth, output_limit } => reading::map_result(
            s,
            path,
            depth,
            output_limit,
            batch,
        ),
        _ => applier::change_result(s, op, batch),
    }
}

/// Why a batch is given up.
pub open spec fn rollback_reason(index: usize, total: usize, message: Seq<char>) -> Seq<char> {
    "Batch rolled back due to failure at op "@ + numbers::decimal(index as nat) + "/"@
        + numbers::decimal(total as nat) + ": "@ + message
}

/// The batch after the operation `k` of `total`, from one. Once an operation has failed, nothing
/// more is carried out.
pub open spec fn batch_step(b: BatchView, op: patch::FileOpView, k: int, total: int) -> BatchView {
    let batch = Some((k as usize, total as usize));
    match b.rollback {
        Some(reason) => BatchView { results: b.results.push(skipped(op, reason, batch)), ..b },
        None => {
            let whole = op_result(b.session, op, batch);
            let (output, budget) = budgeted(whole.output, b.budget);
            let result = outcome::OpResultView { output, ..whole };
            BatchView {
                session: applier::after_change(b.session, op),
                results: b.results.push(result),
                rollback: if outcome::failed(result.status) {
                    Some(rollback_reason(k as usize, total as usize, result.message))
                } else {
                    None
                },
                budget,
            }
        },
    }
}

/// A batch that starts.
pub open spec fn batch_start(s: workspace::SessionView) -> BatchView {
    BatchView {
        session: s,
        results: Seq::empty(),
        rollback: None,
        budget: OutputBudget { used: 0, spent: false },
    }
}

/// The batch after its first `k` operations.
pub open spec fn batch_upto(
    s: workspace::SessionView,
    ops: Seq<patch::FileOpView>,
    k: int,
) -> BatchView
    decreases k,
{
    if k <= 0 {
        batch_start(s)
    } else {
        batch_step(batch_upto(s, ops, k - 1), ops[k - 1], k, ops.len() as int)
    }
}

/// The operations of a batch have been carried out, on staged files.
#[derive(Debug)]
pub struct Execution {
    pub operations: Vec<OpResult>,
    /// Why the batch is given up, where it is.
    pub rollback: Option<String>,
}

/// Carries out an operation of a batch.
fn run_op(session: &mut PatchSession, op: &FileOp, batch: Option<(usize, usize)>) -> (r: OpResult)
    requires
        workspace::session_wf(old(session)@),
    ensures
        workspace::session_wf(final(session)@),
        final(session)@ == applier::after_change(old(session)@, op@),
        r@ == op_result(old(session)@, op@, batch),
{
    match op {
        FileOp::Read { path, symbols, language, offset, limit } => {
            proof {
                assert(applier::put_files(session@.staged, Seq::empty(), 0) == session@.staged);
                assert(applier::after_change(session@, op@) =~= session@);
            }
            let list = match symbols {
                Some(v) => Some(copy_texts(v)),
                None => None,
            };
            let request = ReadSpec {
                path: path.clone(),
                symbols: list,
                language: copy_opt(language),
                offset: *offset,
                limit: *limit,
            };
            perform_read(session, &request, batch)
        },
        FileOp::MapDir { path, depth, output_limit } => {
            proof {
                assert(applier::put_files(session@.staged, Seq::empty(), 0) == session@.staged);
                assert(applier::after_change(session@, op@) =~= session@);
            }
            perform_map(session, path.as_str(), *depth, *output_limit, batch)
        },
        _ => stage_op(session, op, batch),
    }
}

/// Carries out the operations of a batch in their order, on staged files.
pub fn execute_batch(session: &mut PatchSession, ops: &Vec<FileOp>) -> (r: Execution)
    requires
        workspace::session_wf(old(session)@),
    ensures
        workspace::session_wf(final(session)@),
        ({
            let b = batch_upto(old(session)@, patch::op_views(ops@), ops@.len() as int);
            &&& final(session)@ == b.session
            &&& outcome::result_views(r.operations@) == b.results
            &&& lists::opt_text(r.rollback) == b.rollback
        }),
{
    let ghost views = patch::op_views(ops@);
    let ghost before = session@;
    let total: usize = ops.len();
    let mut operations: Vec<OpResult> = Vec::new();
    let mut rollback: Option<String> = None;
    let mut budget = OutputBudget { used: 0, spent: false };
    let mut k: usize = 0;
    assert(outcome::result_views(operations@) =~= Seq::empty());
    while k < total
        invariant
            0 <= k <= total == ops@.len(),
            views == patch::op_views(ops@),
            workspace::session_wf(session@),
            budget.used <= MAX_TOTAL_OUTPUT_BYTES,
            batch_upto(before, views, k as int) == (BatchView {
                session: session@,
                results: outcome::result_views(operations@),
                rollback: lists::opt_text(rollback),
                budget,
            }),
        decreases total - k,
    {
        let op = &ops[k];
        assert(views[k as int] == op@);
        let batch: Option<(usize, usize)> = Some((k + 1, total));
        match &rollback {
            Some(reason) => {
                operations.push(skipped_result(op, reason.as_str(), batch));
            },
            None => {
                let whole = run_op(session, op, batch);
                let (result, left) = apply_output_limits(whole, budget);
                budget = left;
                if result.status.is_error() {
                    let mut reason = cat3(
                        "Batch rolled back due to failure at op ",
                        decimal_of(k + 1).as_str(),
                        "/",
                    );
                    reason.append(decimal_of(total).as_str());
                    reason.append(": ");
                    reason.append(result.message.as_str());
                    rollback = Some(reason);
                }
                operations.push(result);
            },
        }
        k += 1;
    }
    Execution { operations, rollback }
}

// ---------------------------------------------------------------------------
// Taking effect
// ---------------------------------------------------------------------------

/// What is to be written of what a batch has staged: nothing where it is given up or only
/// tried.
pub open spec fn changes_of(
    staged: Seq<workspace::StagedView>,
    rollback: Option<Seq<char>>,
    dry_run: bool,
) -> Seq<workspace::StagedView> {
    if rollback is Some || dry_run {
        Seq::empty()
    } else {
        staged
    }
}

/// What is to be written of what a batch has staged.
pub fn pending_changes(session: &PatchSession, execution: &Execution, dry_run: bool) -> (r: Vec<
    StagedFile,
>)
    ensures
        workspace::staged_views(r@) == changes_of(
            session@.staged,
            lists::opt_text(execution.rollback),
            dry_run,
        ),
{
    if execution.rollback.is_some() || dry_run {
        let none: Vec<StagedFile> = Vec::new();
        assert(workspace::staged_views(none@) =~= Seq::empty());
        none
    } else {
        copy_files(session.staged_files())
    }
}

/// How a batch took effect.
#[derive(Debug)]
pub enum Effect {
    /// It was given up, and why.
    RolledBack(String),
    /// It was only tried.
    DryRun,
    /// Its files could not be written, and why.
    CommitFailed(String),
    /// Its files have been written.
    Committed,
}

/// The contents of an `Effect`.
#[verifier::ext_equal]
pub enum EffectView {
    RolledBack(Seq<char>),
    DryRun,
    CommitFailed(Seq<char>),
    Committed,
}

impl View for Effect {
    type V = EffectView;

    open spec fn view(&self) -> EffectView {
        match self {
            Effect::RolledBack(m) => EffectView::RolledBack(m@),
            Effect::DryRun => EffectView::DryRun,
            Effect::CommitFailed(m) => EffectView::CommitFailed(m@),
            Effect::Committed => EffectView::Committed,
        }
    }
}

/// How a batch takes effect, where the writing of its files ended as `problem` says.
pub open spec fn effect_of(
    rollback: Option<Seq<char>>,
    dry_run: bool,
    problem: Option<Seq<char>>,
) -> EffectView {
    match rollback {
        Some(reason) => EffectView::RolledBack(reason),
        None => if dry_run {
            EffectView::DryRun
        } else {
            match problem {
                Some(m) => EffectView::CommitFailed("Commit failed: "@ + m),
                None => EffectView::Committed,
            }
        },
    }
}

/// A result once it is known how the batch took effect.
pub open spec fn settled(r: outcome::OpResultView, effect: EffectView) -> outcome::OpResultView {
    if is_mutating(r.op_type) && outcome::done(r.status) {
        match effect {
            EffectView::RolledBack(reason) => outcome::OpResultView {
                status: OpStatus::Skipped,
                rollback_reason: Some(reason),
                ..r
            },
            EffectView::DryRun => outcome::OpResultView {
                rollback_reason: Some(
                    "Dry run: preview only; no filesystem changes committed"@,
                ),
                ..r
            },
            EffectView::CommitFailed(m) => outcome::OpResultView {
                status: OpStatus::FatalError,
                message: m,
                rollback_reason: Some(m),
                ..r
            },
            EffectView::Committed => r,
        }
    } else {
        r
    }
}

/// How often something holds of the first `k` results.
pub open spec fn count(
    results: Seq<outcome::OpResultView>,
    holds: spec_fn(outcome::OpResultView) -> bool,
    k: int,
) -> int
    decreases k,
{
    if k <= 0 {
        0
    } else {
        count(results, holds, k - 1) + (if holds(results[k - 1]) {
            1int
        } else {
            0
        })
    }
}

/// How many operations there were, how they ended, and what they were.
#[derive(Debug, Clone, Copy, PartialEq, Eq)]
pub struct ExecutionSummary {
    pub total_operations: usize,
    pub ok_operations: usize,
    pub skipped_operations: usize,
    pub error_operations: usize,
    pub add_operations: usize,
    pub write_operations: usize,
    pub update_operations: usize,
    pub delete_operations: usize,
    pub move_operations: usize,
    pub read_operations: usize,
    pub map_operations: usize,
}

/// How many of the first `k` results are of a type.
pub open spec fn of_type(results: Seq<outcome::OpResultView>, op_type: Seq<char>, k: int) -> usize {
    count(results, |r: outcome::OpResultView| r.op_type == op_type, k) as usize
}

/// The summary of the first `k` results.
pub open spec fn summary_upto(results: Seq<outcome::OpResultView>, k: int) -> ExecutionSummary {
    ExecutionSummary {
        total_operations: k as usize,
        ok_operations: count(results, |r: outcome::OpResultView| r.status is Success, k) as usize,
        skipped_operations: count(
            results,
            |r: outcome::OpResultView| r.status is Skipped,
            k,
        ) as usize,
        error_operations: count(
            results,
            |r: outcome::OpResultView| outcome::failed(r.status),
            k,
        ) as usize,
        add_operations: of_type(results, "add"@, k),
        write_operations: of_type(results, "write"@, k),
        update_operations: of_type(results, "update"@, k),
        delete_operations: of_type(results, "delete"@, k),
        move_operations: of_type(results, "move"@, k),
        read_operations: of_type(results, "read"@, k),
        map_operations: of_type(results, "map"@, k),
    }
}

/// The summary of results.
pub open spec fn summary_of(results: Seq<outcome::OpResultView>) -> ExecutionSummary {
    summary_upto(results, results.len() as int)
}

/// Something holds of no more results than there are.
pub proof fn lemma_count(
    results: Seq<outcome::OpResultView>,
    holds: spec_fn(outcome::OpResultView) -> bool,
    k: int,
)
    requires
        0 <= k,
    ensures
        0 <= count(results, holds, k) <= k,
    decreases k,
{
    if k > 0 {
        lemma_count(results, holds, k - 1);
    }
}

/// How many results are of a type.
fn count_type(operations: &Vec<OpResult>, op_type: &str) -> (r: usize)
    ensures
        r == of_type(
            outcome::result_views(operations@),
            op_type@,
            operations@.len() as int,
        ),
{
    let ghost views = outcome::result_views(operations@);
    let ghost holds = |r: outcome::OpResultView| r.op_type == op_type@;
    let mut n: usize = 0;
    let mut i: usize = 0;
    while i < operations.len()
        invariant
            0 <= i <= operations@.len(),
            views == outcome::result_views(operations@),
            holds == (|r: outcome::OpResultView| r.op_type == op_type@),
            n == count(views, holds, i as int),
            n <= i,
        decreases operations@.len() - i,
    {
        assert(views[i as int] == operations@[i as int]@);
        if same_text(operations[i].op_type.as_str(), op_type) {
            n += 1;
        }
        i += 1;
    }
    n
}

/// The summary of results.
pub fn build_summary(operations: &Vec<OpResult>) -> (r: ExecutionSummary)
    ensures
        r == summary_of(outcome::result_views(operations@)),
{
    let ghost views = outcome::result_views(operations@);
    let ghost good = |r: outcome::OpResultView| r.status is Success;
    let ghost idle = |r: outcome::OpResultView| r.status is Skipped;
    let ghost bad = |r: outcome::OpResultView| outcome::failed(r.status);
    let (mut ok, mut skipped, mut errors): (usize, usize, usize) = (0, 0, 0);
    let mut i: usize = 0;
    while i < operations.len()
        invariant
            0 <= i <= operations@.len(),
            views == outcome::result_views(operations@),
            good == (|r: outcome::OpResultView| r.status is Success),
            idle == (|r: outcome::OpResultView| r.status is Skipped),
            bad == (|r: outcome::OpResultView| outcome::failed(r.status)),
            ok == count(views, good, i as int),
            skipped == count(views, idle, i as int),
            errors == count(views, bad, i as int),
            ok <= i,
            skipped <= i,
            errors <= i,
        decreases operations@.len() - i,
    {
        assert(views[i as int] == operations@[i as int]@);
        match operations[i].status {
            OpStatus::Success => {
                ok += 1;
            },
            OpStatus::Skipped => {
                skipped += 1;
            },
            OpStatus::FatalError | OpStatus::RecoverableError => {
                errors += 1;
            },
            OpStatus::ValidationWarning => {},
        }
        i += 1;
    }
    ExecutionSummary {
        total_operations: operations.len(),
        ok_operations: ok,
        skipped_operations: skipped,
        error_operations: errors,
        add_operations: count_type(operations, "add"),
        write_operations: count_type(operations, "write"),
        update_operations: count_type(operations, "update"),
        delete_operations: count_type(operations, "delete"),
        move_operations: count_type(operations, "move"),
        read_operations: count_type(operations, "read"),
        map_operations: count_type(operations, "map"),
    }
}

/// What became of a batch.
#[derive(Debug)]
pub struct ExecutionReport {
    /// Whether no operation failed.
    pub ok: bool,
    pub dry_run: bool,
    /// Whether the files have been written.
    pub committed: bool,
    pub summary: ExecutionSummary,
    pub operations: Vec<OpResult>,
}

/// How a batch takes effect.
fn take_effect(rollback: &Option<String>, dry_run: bool, problem: &Option<String>) -> (r: Effect)
    ensures
        r@ == effect_of(lists::opt_text(*rollback), dry_run, lists::opt_text(*problem)),
{
    match rollback {
        Some(reason) => Effect::RolledBack(reason.clone()),
        None => if dry_run {
            Effect::DryRun
        } else {
            match problem {
                Some(m) => Effect::CommitFailed(cat2("Commit failed: ", m.as_str())),
                None => Effect::Committed,
            }
        },
    }
}

/// Settles the result `i` of a list.
fn settle(operations: &mut Vec<OpResult>, i: usize, effect: &Effect)
    requires
        i < old(operations)@.len(),
    ensures
        final(operations)@.len() == old(operations)@.len(),
        final(operations)@[i as int]@ == settled(old(operations)@[i as int]@, effect@),
        forall|j: int|
            0 <= j < old(operations)@.len() && j != i ==> final(operations)@[j]
                == #[trigger] old(operations)@[j],
{
    let ghost before = operations@[i as int]@;
    if is_mutating_result(&operations[i]) {
        if operations[i].status.is_done() {
            match effect {
                Effect::RolledBack(reason) => {
                    operations[i].status = OpStatus::Skipped;
                    operations[i].rollback_reason = Some(reason.clone());
                },
                Effect::DryRun => {
                    operations[i].rollback_reason = Some(
                        "Dry run: preview only; no filesystem changes committed".to_owned(),
                    );
                },
                Effect::CommitFailed(m) => {
                    operations[i].status = OpStatus::FatalError;
                    operations[i].message = m.clone();
                    operations[i].rollback_reason = Some(m.clone());
                },
                Effect::Committed => {},
            }
        }
    }
    assert(operations@[i as int]@ =~~= settled(before, effect@));
}

/// What became of a batch, where the writing of its files ended as `problem` says.
pub fn finish_batch(execution: Execution, dry_run: bool, problem: Option<String>) -> (r:
    ExecutionReport)
    ensures
        ({
            let effect = effect_of(
                lists::opt_text(execution.rollback),
                dry_run,
                lists::opt_text(problem),
            );
            let results = outcome::result_views(execution.operations@).map_values(
                |o: outcome::OpResultView| settled(o, effect),
            );
            &&& outcome::result_views(r.operations@) == results
            &&& r.ok == !applier::any_failed(results)
            &&& r.dry_run == dry_run
            &&& r.committed == (effect is Committed)
            &&& r.summary == summary_of(results)
        }),
{
    let effect = take_effect(&execution.rollback, dry_run, &problem);
    let ghost before = outcome::result_views(execution.operations@);
    let ghost results = before.map_values(|o: outcome::OpResultView| settled(o, effect@));
    let mut operations = execution.operations;
    let mut i: usize = 0;
    while i < operations.len()
        invariant
            0 <= i <= operations@.len() == before.len(),
            results == before.map_values(|o: outcome::OpResultView| settled(o, effect@)),
            forall|j: int| 0 <= j < i ==> (#[trigger] operations@[j])@ == results[j],
            forall|j: int| i <= j < before.len() ==> (#[trigger] operations@[j])@ == before[j],
        decreases before.len() - i,
    {
        let ghost list = operations@;
        settle(&mut operations, i, &effect);
        proof {
            assert(list[i as int]@ == before[i as int]);
            assert forall|j: int| 0 <= j < i + 1 implies (#[trigger] operations@[j])@
                == results[j] by {
                if j < i {
                    assert(operations@[j] == list[j]);
                }
            }
            assert forall|j: int| i + 1 <= j < before.len() implies (#[trigger] operations@[j])@
                == before[j] by {
                assert(operations@[j] == list[j]);
            }
        }
        i += 1;
    }
    assert(outcome::result_views(operations@) =~= results);
    let ok = !has_failure(&operations);
    let committed = match effect {
        Effect::Committed => true,
        _ => false,
    };
    ExecutionReport { ok, dry_run, committed, summary: build_summary(&operations), operations }
}

} // verus!
