//! Requests to the tool.

use vstd::prelude::*;
use vstd::string::*;

pub use crate::batch::{
    execute_batch, finish_batch, pending_changes, Execution, ExecutionReport, ExecutionSummary,
};
pub use crate::report::{render_error_text, render_text_report, ResponseFormat};
pub use crate::tree::MapMetrics;

use crate::batch;
use crate::error;
use crate::error::cat2;
use crate::lists;
use crate::outcome;
use crate::outcome::OpStatus;
use crate::parser;
use crate::parser::parse_patch;
use crate::patch;
use crate::patch::FileOp;
use crate::paths;
use crate::paths::resolve_path;
use crate::reading;
use crate::similarity::Threshold;
use crate::text::same_text;
use crate::tool_contract::DEFAULT_MAP_DEPTH;
use crate::workspace;
use crate::workspace::PatchSession;

verus! {

broadcast use crate::lists::group_lists;

/// What a caller asks for.
#[derive(Debug)]
pub struct BatchExecParams {
    /// The text of the patch.
    pub patch: String,
    /// The threshold for a patch that names none.
    pub threshold: Option<Threshold>,
    /// Whether the batch is only tried.
    pub dry_run: bool,
    pub response_format: Option<ResponseFormat>,
}

/// What a caller asks for, understood.
#[derive(Debug)]
pub struct Request {
    pub ops: Vec<FileOp>,
    pub threshold: Option<Threshold>,
}

/// The contents of a `Request`.
#[verifier::ext_equal]
pub struct RequestView {
    pub ops: Seq<patch::FileOpView>,
    pub threshold: Option<Threshold>,
}

impl View for Request {
    type V = RequestView;

    open spec fn view(&self) -> RequestView {
        RequestView { ops: patch::op_views(self.ops@), threshold: self.threshold }
    }
}

/// What a patch text and a threshold ask for, or why they ask for nothing. The threshold that
/// the patch names comes first.
pub open spec fn requested(text: Seq<char>, threshold: Option<Threshold>) -> Result<
    RequestView,
    Seq<char>,
> {
    if text.len() == 0 {
        Err("patch is required. Wrap operations in === begin / === end."@)
    } else {
        match parser::parsed(text) {
            Err(e) => Err("Parse error: "@ + error::error_message(e)),
            Ok(p) => Ok(
                RequestView {
                    ops: p.ops,
                    threshold: if p.threshold is Some {
                        p.threshold
                    } else {
                        threshold
                    },
                },
            ),
        }
    }
}

/// Reads what a caller asks for.
pub fn read_request(params: &BatchExecParams) -> (r: Result<Request, String>)
    requires
        params.threshold is Some ==> params.threshold->0.wf(),
    ensures
        match r {
            Ok(q) => {
                &&& requested(params.patch@, params.threshold) == Ok::<RequestView, Seq<char>>(q@)
                &&& q.threshold is Some ==> q.threshold->0.wf()
            },
            Err(m) => requested(params.patch@, params.threshold) == Err::<RequestView, Seq<char>>(
                m@,
            ),
        },
{
    if params.patch.as_str().is_empty() {
        return Err("patch is required. Wrap operations in === begin / === end.".to_owned());
    }
    match parse_patch(params.patch.as_str()) {
        Err(e) => Err(cat2("Parse error: ", e.message().as_str())),
        Ok(p) => {
            let threshold = match p.threshold {
                Some(t) => Some(t),
                None => params.threshold,
            };
            Ok(Request { ops: p.ops, threshold })
        },
    }
}

// ---------------------------------------------------------------------------
// What to look at
// ---------------------------------------------------------------------------

/// A path that a batch needs to know, and for a directory how deep.
#[derive(Debug)]
pub struct Place {
    pub path: String,
    pub depth: Option<usize>,
}

/// The contents of a `Place`.
#[verifier::ext_equal]
pub struct PlaceView {
    pub path: Seq<char>,
    pub depth: Option<usize>,
}

impl View for Place {
    type V = PlaceView;

    open spec fn view(&self) -> PlaceView {
        PlaceView { path: self.path@, depth: self.depth }
    }
}

/// The contents of a list of places.
pub open spec fn place_views(v: Seq<Place>) -> Seq<PlaceView> {
    v.map_values(|p: Place| p@)
}

/// The place of a path as it was given.
pub open spec fn place_of_path(
    base: Seq<char>,
    home: Option<Seq<char>>,
    path: Seq<char>,
    depth: Option<usize>,
) -> PlaceView {
    PlaceView { path: paths::resolved(base, home, path).0, depth }
}

/// The places that an operation needs to know.
pub open spec fn op_places(base: Seq<char>, home: Option<Seq<char>>, op: patch::FileOpView) -> Seq<
    PlaceView,
> {
    match op {
        patch::FileOpView::Add { path, .. } => seq![place_of_path(base, home, path, None)],
        patch::FileOpView::Write { path, .. } => seq![place_of_path(base, home, path, None)],
        patch::FileOpView::Delete { path } => seq![place_of_path(base, home, path, None)],
        patch::FileOpView::Read { path, .. } => seq![place_of_path(base, home, path, None)],
        patch::FileOpView::Update { path, move_to, .. } => match move_to {
            Some(dest) => seq![
                place_of_path(base, home, path, None),
                place_of_path(base, home, dest, None),
            ],
            None => seq![place_of_path(base, home, path, None)],
        },
        patch::FileOpView::Move { from, to } => seq![
            place_of_path(base, home, from, None),
            place_of_path(base, home, to, None),
        ],
        patch::FileOpView::MapDir { path, depth, .. } => seq![
            place_of_path(
                base,
                home,
                path,
                Some(reading::or_usual(depth, DEFAULT_MAP_DEPTH)),
            ),
        ],
    }
}

/// The places that the first `k` operations need to know.
pub open spec fn places_upto(
    base: Seq<char>,
    home: Option<Seq<char>>,
    ops: Seq<patch::FileOpView>,
    k: int,
) -> Seq<PlaceView>
    decreases k,
{
    if k <= 0 {
        Seq::empty()
    } else {
        places_upto(base, home, ops, k - 1) + op_places(base, home, ops[k - 1])
    }
}

/// Adds the place of a path as it was given.
fn push_place(
    out: &mut Vec<Place>,
    base: &str,
    home: &Option<String>,
    path: &str,
    depth: Option<usize>,
)
    ensures
        place_views(final(out)@) == place_views(old(out)@).push(
            place_of_path(base@, lists::opt_text(*home), path@, depth),
        ),
{
    let ghost before = out@;
    let p = Place { path: resolve_path(base, home, path).full_path, depth };
    out.push(p);
    assert(place_views(out@) =~= place_views(before).push(p@));
}

/// The places that a batch needs to know before it starts.
pub fn places_to_observe(base: &str, home: &Option<String>, ops: &Vec<FileOp>) -> (r: Vec<Place>)
    ensures
        place_views(r@) == places_upto(
            base@,
            lists::opt_text(*home),
            patch::op_views(ops@),
            ops@.len() as int,
        ),
{
    let ghost views = patch::op_views(ops@);
    let ghost h = lists::opt_text(*home);
    let mut out: Vec<Place> = Vec::new();
    let mut k: usize = 0;
    assert(place_views(out@) =~= Seq::empty());
    while k < ops.len()
        invariant
            0 <= k <= ops@.len(),
            views == patch::op_views(ops@),
            h == lists::opt_text(*home),
            place_views(out@) == places_upto(base@, h, views, k as int),
        decreases ops@.len() - k,
    {
        assert(views[k as int] == ops@[k as int]@);
        let ghost before = place_views(out@);
        match &ops[k] {
            FileOp::Add { path, .. } | FileOp::Write { path, .. } | FileOp::Delete { path }
            | FileOp::Read { path, .. } => {
                push_place(&mut out, base, home, path.as_str(), None);
            },
            FileOp::Update { path, move_to, .. } => {
                push_place(&mut out, base, home, path.as_str(), None);
                if let Some(dest) = move_to {
                    push_place(&mut out, base, home, dest.as_str(), None);
                }
            },
            FileOp::Move { from, to } => {
                push_place(&mut out, base, home, from.as_str(), None);
                push_place(&mut out, base, home, to.as_str(), None);
            },
            FileOp::MapDir { path, depth, .. } => {
                let deep: usize = match depth {
                    Some(n) => *n,
                    None => DEFAULT_MAP_DEPTH,
                };
                push_place(&mut out, base, home, path.as_str(), Some(deep));
            },
        }
        assert(place_views(out@) =~= before + op_places(base@, h, views[k as int]));
        k += 1;
    }
    out
}

// ---------------------------------------------------------------------------
// Advice
// ---------------------------------------------------------------------------

/// The path of the file that an operation writes.
pub open spec fn written_path(op: patch::FileOpView) -> Option<Seq<char>> {
    match op {
        patch::FileOpView::Add { path, .. } => Some(path),
        patch::FileOpView::Write { path, .. } => Some(path),
        patch::FileOpView::Update { path, move_to, .. } => match move_to {
            Some(dest) => Some(dest),
            None => Some(path),
        },
        _ => None,
    }
}

/// Whether an operation has written the file of a full path.
pub open spec fn wrote(
    s: workspace::SessionView,
    op: patch::FileOpView,
    result: outcome::OpResultView,
    target: Seq<char>,
) -> bool {
    &&& outcome::done(result.status)
    &&& written_path(op) is Some
    &&& workspace::full_path(s, written_path(op)->0) == target
}

/// The last of the first `k` operations that has written the file of a full path.
pub open spec fn last_writer(
    s: workspace::SessionView,
    ops: Seq<patch::FileOpView>,
    results: Seq<outcome::OpResultView>,
    target: Seq<char>,
    k: int,
) -> Option<int>
    decreases k,
{
    if k <= 0 {
        None
    } else if wrote(s, ops[k - 1], results[k - 1], target) {
        Some(k - 1)
    } else {
        last_writer(s, ops, results, target, k - 1)
    }
}

/// A result with advice on the file. Where the advice speaks against the file, the operation has
/// a warning.
pub open spec fn with_advice(
    r: outcome::OpResultView,
    warnings: Seq<Seq<char>>,
    issue: bool,
) -> outcome::OpResultView {
    outcome::OpResultView {
        warnings,
        status: if issue {
            OpStatus::ValidationWarning
        } else {
            r.status
        },
        ..r
    }
}

/// The results with advice on the file of a full path, at the operation that wrote it last.
pub open spec fn advised(
    s: workspace::SessionView,
    ops: Seq<patch::FileOpView>,
    results: Seq<outcome::OpResultView>,
    target: Seq<char>,
    warnings: Seq<Seq<char>>,
    issue: bool,
) -> Seq<outcome::OpResultView> {
    match last_writer(s, ops, results, target, ops.len() as int) {
        Some(i) => results.update(i, with_advice(results[i], warnings, issue)),
        None => results,
    }
}

/// The path of the file that an operation writes.
fn path_written(op: &FileOp) -> (r: Option<&str>)
    ensures
        match r {
            Some(p) => written_path(op@) == Some(p@),
            None => written_path(op@) is None,
        },
{
    match op {
        FileOp::Add { path, .. } => Some(path.as_str()),
        FileOp::Write { path, .. } => Some(path.as_str()),
        FileOp::Update { path, move_to, .. } => match move_to {
            Some(dest) => Some(dest.as_str()),
            None => Some(path.as_str()),
        },
        _ => None,
    }
}

/// Gives the operation that wrote a file last the advice on it. `issue` says whether the advice
/// speaks against the file.
pub fn attach_warnings(
    session: &PatchSession,
    ops: &Vec<FileOp>,
    execution: Execution,
    target: &str,
    warnings: Vec<String>,
    issue: bool,
) -> (r: Execution)
    requires
        execution.operations@.len() == ops@.len(),
    ensures
        outcome::result_views(r.operations@) == advised(
            session@,
            patch::op_views(ops@),
            outcome::result_views(execution.operations@),
            target@,
            lists::texts(warnings@),
            issue,
        ),
        lists::opt_text(r.rollback) == lists::opt_text(execution.rollback),
{
    let ghost views = patch::op_views(ops@);
    let ghost results = outcome::result_views(execution.operations@);
    let Execution { mut operations, rollback } = execution;
    let mut k: usize = ops.len();
    while k > 0
        invariant
            0 <= k <= ops@.len() == operations@.len(),
            views == patch::op_views(ops@),
            results == outcome::result_views(operations@),
            results == outcome::result_views(execution.operations@),
            rollback == execution.rollback,
            last_writer(session@, views, results, target@, ops@.len() as int) == last_writer(
                session@,
                views,
                results,
                target@,
                k as int,
            ),
        decreases k,
    {
        assert(views[k - 1] == ops@[k - 1]@);
        assert(results[k - 1] == operations@[k - 1]@);
        if operations[k - 1].status.is_done() {
            if let Some(path) = path_written(&ops[k - 1]) {
                let full = session.resolve_path(path).full_path;
                if same_text(full.as_str(), target) {
                    let ghost list = operations@;
                    operations[k - 1].warnings = warnings;
                    if issue {
                        operations[k - 1].status = OpStatus::ValidationWarning;
                    }
                    proof {
                        let i = k - 1;
                        let want = with_advice(results[i], lists::texts(warnings@), issue);
                        assert(operations@[i]@ =~~= want);
                        assert(outcome::result_views(operations@) =~= results.update(i, want));
                    }
                    return Execution { operations, rollback };
                }
            }
        }
        k -= 1;
    }
    Execution { operations, rollback }
}

} // verus!
