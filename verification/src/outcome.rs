//! What became of the operations of a patch.

use vstd::prelude::*;
use vstd::string::*;

use crate::error;
use crate::error::{LLMErrorOutput, PatchError};
use crate::lists;
use crate::paths::PathSource;

verus! {

/// How an operation ended.
#[derive(Debug, Clone, Copy, PartialEq, Eq, Structural)]
pub enum OpStatus {
    /// It succeeded.
    Success,
    /// It was not carried out, or there was nothing to do.
    Skipped,
    /// It failed, and may work with other hunks.
    RecoverableError,
    /// It failed.
    FatalError,
    /// It succeeded, and something is to be said against it.
    ValidationWarning,
}

/// A status as a word.
pub open spec fn status_text(status: OpStatus) -> Seq<char> {
    match status {
        OpStatus::Success => "ok"@,
        OpStatus::Skipped => "skipped"@,
        OpStatus::RecoverableError => "recoverable_error"@,
        OpStatus::FatalError => "fatal_error"@,
        OpStatus::ValidationWarning => "validation_warning"@,
    }
}

/// Whether a status is a failure.
pub open spec fn failed(status: OpStatus) -> bool {
    status is FatalError || status is RecoverableError
}

/// Whether a status says that an operation was carried out.
pub open spec fn done(status: OpStatus) -> bool {
    status is Success || status is ValidationWarning
}

impl OpStatus {
    /// The status as a word.
    pub fn as_str(&self) -> (r: &'static str)
        ensures
            r@ == status_text(*self),
    {
        match self {
            OpStatus::Success => "ok",
            OpStatus::Skipped => "skipped",
            OpStatus::RecoverableError => "recoverable_error",
            OpStatus::FatalError => "fatal_error",
            OpStatus::ValidationWarning => "validation_warning",
        }
    }

    /// Whether the operation was carried out.
    pub fn is_done(&self) -> (r: bool)
        ensures
            r == done(*self),
    {
        match self {
            OpStatus::Success | OpStatus::ValidationWarning => true,
            _ => false,
        }
    }

    /// Whether the operation failed.
    pub fn is_error(&self) -> (r: bool)
        ensures
            r == failed(*self),
    {
        match self {
            OpStatus::FatalError | OpStatus::RecoverableError => true,
            _ => false,
        }
    }
}

/// What became of an operation.
#[derive(Debug)]
pub struct OpResult {
    pub path: String,
    pub op_type: String,
    pub status: OpStatus,
    pub message: String,
    pub warnings: Vec<String>,
    pub diff: Option<String>,
    /// The lines of the file before and after.
    pub line_changes: Option<(usize, usize)>,
    pub match_info: Option<String>,
    /// The place of the operation in its batch, from one.
    pub batch_index: Option<usize>,
    pub batch_total: Option<usize>,
    pub rollback_reason: Option<String>,
    /// What a reading operation shows.
    pub output: Option<String>,
    pub llm_error: Option<LLMErrorOutput>,
    pub path_source: Option<PathSource>,
}

/// The contents of an `OpResult`.
#[verifier::ext_equal]
pub struct OpResultView {
    pub path: Seq<char>,
    pub op_type: Seq<char>,
    pub status: OpStatus,
    pub message: Seq<char>,
    pub warnings: Seq<Seq<char>>,
    pub diff: Option<Seq<char>>,
    pub line_changes: Option<(usize, usize)>,
    pub match_info: Option<Seq<char>>,
    pub batch_index: Option<usize>,
    pub batch_total: Option<usize>,
    pub rollback_reason: Option<Seq<char>>,
    pub output: Option<Seq<char>>,
    pub llm_error: Option<error::ErrorOutputView>,
    pub path_source: Option<PathSource>,
}

impl View for OpResult {
    type V = OpResultView;

    open spec fn view(&self) -> OpResultView {
        OpResultView {
            path: self.path@,
            op_type: self.op_type@,
            status: self.status,
            message: self.message@,
            warnings: lists::texts(self.warnings@),
            diff: lists::opt_text(self.diff),
            line_changes: self.line_changes,
            match_info: lists::opt_text(self.match_info),
            batch_index: self.batch_index,
            batch_total: self.batch_total,
            rollback_reason: lists::opt_text(self.rollback_reason),
            output: lists::opt_text(self.output),
            llm_error: match self.llm_error {
                Some(e) => Some(e@),
                None => None,
            },
            path_source: self.path_source,
        }
    }
}

/// The contents of a list of results.
pub open spec fn result_views(v: Seq<OpResult>) -> Seq<OpResultView> {
    v.map_values(|r: OpResult| r@)
}

/// Appending a result appends its contents.
pub broadcast proof fn lemma_result_views_push(v: Seq<OpResult>, r: OpResult)
    ensures
        #[trigger] result_views(v.push(r)) == result_views(v).push(r@),
{
    assert(result_views(v.push(r)) =~= result_views(v).push(r@));
}

/// What became of the operations of a patch.
#[derive(Debug)]
pub struct PatchResult {
    pub operations: Vec<OpResult>,
}

/// What became of the operations of a patch.
pub type PatchOutcome = PatchResult;

/// The place of an operation in its batch, and the size of the batch.
pub open spec fn batch_place(batch: Option<(usize, usize)>) -> (Option<usize>, Option<usize>) {
    match batch {
        Some((i, n)) => (Some(i), Some(n)),
        None => (None, None),
    }
}

/// A result that says no more than how an operation ended.
pub open spec fn plain_result(
    path: Seq<char>,
    op_type: Seq<char>,
    status: OpStatus,
    message: Seq<char>,
    batch: Option<(usize, usize)>,
) -> OpResultView {
    OpResultView {
        path,
        op_type,
        status,
        message,
        warnings: Seq::empty(),
        diff: None,
        line_changes: None,
        match_info: None,
        batch_index: batch_place(batch).0,
        batch_total: batch_place(batch).1,
        rollback_reason: None,
        output: None,
        llm_error: None,
        path_source: None,
    }
}

/// A result that says no more than how an operation ended.
pub fn make_op(
    path: &str,
    op_type: &str,
    status: OpStatus,
    message: &str,
    batch: Option<(usize, usize)>,
) -> (r: OpResult)
    ensures
        r@ == plain_result(path@, op_type@, status, message@, batch),
{
    let (index, total): (Option<usize>, Option<usize>) = match batch {
        Some((i, n)) => (Some(i), Some(n)),
        None => (None, None),
    };
    let r = OpResult {
        path: path.to_owned(),
        op_type: op_type.to_owned(),
        status,
        message: message.to_owned(),
        warnings: Vec::new(),
        diff: None,
        line_changes: None,
        match_info: None,
        batch_index: index,
        batch_total: total,
        rollback_reason: None,
        output: None,
        llm_error: None,
        path_source: None,
    };
    assert(r@ =~~= plain_result(path@, op_type@, status, message@, batch));
    r
}

/// How bad an error is. A hunk that does not fit can be written anew.
pub open spec fn error_status(e: error::PatchErrorView) -> OpStatus {
    match e {
        error::PatchErrorView::ContextNotFound(_) => OpStatus::RecoverableError,
        error::PatchErrorView::AmbiguousContext { .. } => OpStatus::RecoverableError,
        _ => OpStatus::FatalError,
    }
}

/// The result of an operation that failed.
pub open spec fn error_result(
    path: Seq<char>,
    op_type: Seq<char>,
    e: error::PatchErrorView,
    batch: Option<(usize, usize)>,
) -> OpResultView {
    OpResultView {
        llm_error: Some(error::error_output(e)),
        ..plain_result(path, op_type, error_status(e), error::error_message(e), batch)
    }
}

/// The result of an operation that failed.
pub fn make_error_op(
    path: &str,
    op_type: &str,
    e: &PatchError,
    batch: Option<(usize, usize)>,
) -> (r: OpResult)
    ensures
        r@ == error_result(path@, op_type@, e@, batch),
{
    let status = match e {
        PatchError::ContextNotFound(_) => OpStatus::RecoverableError,
        PatchError::AmbiguousContext { .. } => OpStatus::RecoverableError,
        _ => OpStatus::FatalError,
    };
    let mut r = make_op(path, op_type, status, e.message().as_str(), batch);
    r.llm_error = Some(e.to_json());
    assert(r@ =~~= error_result(path@, op_type@, e@, batch));
    r
}

/// A result with how its path was given.
pub open spec fn sourced(r: OpResultView, source: PathSource) -> OpResultView {
    OpResultView { path_source: Some(source), ..r }
}

/// A result with how its path was given.
pub fn with_path_source(op: OpResult, source: PathSource) -> (r: OpResult)
    ensures
        r@ == sourced(op@, source),
{
    let mut r = op;
    r.path_source = Some(source);
    assert(r@ =~~= sourced(op@, source));
    r
}

} // verus!
