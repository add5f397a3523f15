//! Writing staged files to the disk, all of them or none.
//!
//! The new contents are first written beside their files, as shadows; then the files that are
//! there are backed up; then the shadows take the places of the files, and the files that go
//! are removed. When a step fails, the steps before it are undone.

use vstd::prelude::*;
use vstd::string::*;

use crate::bytes::copy_bytes;
use crate::error::{cat2, cat3, PatchError};
use crate::error;
use crate::lists;
use crate::text;
use crate::text::same_text;
use crate::workspace;
use crate::workspace::{PatchSession, StagedFile};

verus! {

// ---------------------------------------------------------------------------
// Names
// ---------------------------------------------------------------------------

/// Whether a text holds lower case hexadecimal digits and hyphens only.
pub open spec fn is_suffix(s: Seq<char>) -> bool {
    forall|i: int|
        0 <= i < s.len() ==> ('0' <= #[trigger] s[i] <= '9') || ('a' <= s[i] <= 'f') || s[i] == '-'
}

/// `uuid::Uuid::new_v4`, written out: 36 lower case hexadecimal digits and hyphens. Which ones
/// is a matter of chance, and that two of them differ is only likely.
#[verifier::external_body]
pub(crate) fn shadow_suffix() -> (r: String)
    ensures
        r@.len() == 36,
        is_suffix(r@),
{
    uuid::Uuid::new_v4().to_string()
}

/// The path of the backup of a file.
pub open spec fn backup_name(path: Seq<char>) -> Seq<char> {
    path + ".backup_tmp"@
}

/// The path of the shadow of a file.
pub open spec fn shadow_name(path: Seq<char>, suffix: Seq<char>) -> Seq<char> {
    path + "."@ + suffix + ".patch_tmp"@
}

/// The path of the backup of a file.
pub fn backup_path_for(path: &str) -> (r: String)
    ensures
        r@ == backup_name(path@),
{
    cat2(path, ".backup_tmp")
}

/// The path of the shadow of a file, with a given suffix.
pub fn shadow_path_with(path: &str, suffix: &str) -> (r: String)
    ensures
        r@ == shadow_name(path@, suffix@),
{
    let mut s = cat3(path, ".", suffix);
    s.append(".patch_tmp");
    s
}

/// The path of the shadow of a file, with a suffix of chance.
pub fn shadow_path_for(path: &str) -> (r: String)
    ensures
        exists|suffix: Seq<char>|
            suffix.len() == 36 && is_suffix(suffix) && r@ == #[trigger] shadow_name(path@, suffix),
{
    let suffix = shadow_suffix();
    let r = shadow_path_with(path, suffix.as_str());
    assert(r@ == shadow_name(path@, suffix@));
    r
}

// ---------------------------------------------------------------------------
// Plans
// ---------------------------------------------------------------------------

/// A file that is to be written or removed.
#[derive(Debug)]
pub struct PlannedFile {
    pub target: String,
    /// The bytes that the file is to have, or nothing where it is to go.
    pub content: Option<Vec<u8>>,
    /// Whether the file is there.
    pub existed: bool,
    pub shadow: String,
    pub backup: String,
}

/// The contents of a `PlannedFile`.
#[verifier::ext_equal]
pub struct PlannedView {
    pub target: Seq<char>,
    pub content: Option<Seq<u8>>,
    pub existed: bool,
    pub shadow: Seq<char>,
    pub backup: Seq<char>,
}

impl View for PlannedFile {
    type V = PlannedView;

    open spec fn view(&self) -> PlannedView {
        PlannedView {
            target: self.target@,
            content: workspace::opt_bytes(self.content),
            existed: self.existed,
            shadow: self.shadow@,
            backup: self.backup@,
        }
    }
}

/// The contents of a list of planned files.
pub open spec fn planned_views(v: Seq<PlannedFile>) -> Seq<PlannedView> {
    v.map_values(|f: PlannedFile| f@)
}

/// Whether no two names of a plan are the same.
pub open spec fn names_differ(plan: Seq<PlannedView>) -> bool {
    &&& forall|i: int, j: int|
        0 <= i < plan.len() && 0 <= j < plan.len() ==> (#[trigger] plan[i]).target != (
        #[trigger] plan[j]).shadow && plan[i].target != plan[j].backup && plan[i].shadow
            != plan[j].backup
    &&& forall|i: int, j: int|
        0 <= i < j < plan.len() ==> (#[trigger] plan[i]).target != (#[trigger] plan[j]).target
            && plan[i].shadow != plan[j].shadow && plan[i].backup != plan[j].backup
}

/// One thing to do on the disk.
#[derive(Debug)]
pub enum Step {
    /// Nothing is to be done.
    Nothing,
    /// Write a new file.
    WriteShadow { path: String, content: Vec<u8> },
    /// Copy a file.
    Backup { target: String, backup: String },
    /// Put a file in the place of another.
    Rename { shadow: String, target: String },
    /// Remove a file.
    Remove { target: String },
    /// Put a backup back in its place.
    Restore { backup: String, target: String },
    /// Remove a file that is no longer needed.
    Discard { path: String },
}

/// The contents of a `Step`.
#[verifier::ext_equal]
pub enum StepView {
    Nothing,
    WriteShadow { path: Seq<char>, content: Seq<u8> },
    Backup { target: Seq<char>, backup: Seq<char> },
    Rename { shadow: Seq<char>, target: Seq<char> },
    Remove { target: Seq<char> },
    Restore { backup: Seq<char>, target: Seq<char> },
    Discard { path: Seq<char> },
}

impl View for Step {
    type V = StepView;

    open spec fn view(&self) -> StepView {
        match self {
            Step::Nothing => StepView::Nothing,
            Step::WriteShadow { path, content } => StepView::WriteShadow {
                path: path@,
                content: content@,
            },
            Step::Backup { target, backup } => StepView::Backup {
                target: target@,
                backup: backup@,
            },
            Step::Rename { shadow, target } => StepView::Rename {
                shadow: shadow@,
                target: target@,
            },
            Step::Remove { target } => StepView::Remove { target: target@ },
            Step::Restore { backup, target } => StepView::Restore {
                backup: backup@,
                target: target@,
            },
            Step::Discard { path } => StepView::Discard { path: path@ },
        }
    }
}

/// The contents of a list of steps.
pub open spec fn step_views(v: Seq<Step>) -> Seq<StepView> {
    v.map_values(|s: Step| s@)
}

/// The phases of a commit.
#[derive(Debug, Clone, Copy, PartialEq, Eq)]
pub enum Phase {
    /// The new contents are written beside their files.
    Shadow,
    /// The files that are there are copied.
    Backup,
    /// The files are replaced or removed.
    Swap,
}

/// How many phases come before a phase.
pub open spec fn phase_number(phase: Phase) -> int {
    match phase {
        Phase::Shadow => 0,
        Phase::Backup => 1,
        Phase::Swap => 2,
    }
}

/// The step of a file in a phase.
pub open spec fn forward_step(f: PlannedView, phase: int) -> StepView {
    if phase <= 0 {
        match f.content {
            Some(content) => StepView::WriteShadow { path: f.shadow, content },
            None => StepView::Nothing,
        }
    } else if phase == 1 {
        if f.existed {
            StepView::Backup { target: f.target, backup: f.backup }
        } else {
            StepView::Nothing
        }
    } else {
        match f.content {
            Some(_) => StepView::Rename { shadow: f.shadow, target: f.target },
            None => if f.existed {
                StepView::Remove { target: f.target }
            } else {
                StepView::Nothing
            },
        }
    }
}

/// The steps of a phase, one for each file.
pub open spec fn phase_steps(plan: Seq<PlannedView>, phase: int) -> Seq<StepView> {
    plan.map_values(|f: PlannedView| forward_step(f, phase))
}

/// How a file that has been replaced or removed is brought back, or else how its shadow is
/// taken away. `written` says whether the shadow was written, `swapped` whether the file was
/// replaced or removed.
pub open spec fn undo_first(f: PlannedView, written: bool, swapped: bool) -> StepView {
    if swapped {
        if f.existed {
            StepView::Restore { backup: f.backup, target: f.target }
        } else if f.content is Some {
            StepView::Discard { path: f.target }
        } else {
            StepView::Nothing
        }
    } else if written && f.content is Some {
        StepView::Discard { path: f.shadow }
    } else {
        StepView::Nothing
    }
}

/// How a backup that is not needed is taken away. `saved` says whether the file was copied.
pub open spec fn undo_second(f: PlannedView, saved: bool, swapped: bool) -> StepView {
    if !swapped && saved && f.existed {
        StepView::Discard { path: f.backup }
    } else {
        StepView::Nothing
    }
}

/// The steps that undo the first `k` steps for the first `i` files.
pub open spec fn undo_steps(plan: Seq<PlannedView>, k: int, i: int) -> Seq<StepView>
    decreases i,
{
    let n = plan.len() as int;
    if i <= 0 {
        Seq::empty()
    } else {
        let f = plan[i - 1];
        let (written, saved, swapped) = (k > i - 1, k > n + i - 1, k > 2 * n + i - 1);
        undo_steps(plan, k, i - 1).push(undo_first(f, written, swapped)).push(
            undo_second(f, saved, swapped),
        )
    }
}

/// The steps that take away the backups when all went well.
pub open spec fn cleanup_steps(plan: Seq<PlannedView>) -> Seq<StepView> {
    plan.map_values(
        |f: PlannedView|
            if f.existed {
                StepView::Discard { path: f.backup }
            } else {
                StepView::Nothing
            },
    )
}

// ---------------------------------------------------------------------------
// What the steps do
// ---------------------------------------------------------------------------

/// The files of a disk, by their paths.
pub type Files = Map<Seq<char>, Seq<u8>>;

/// The files after a step.
pub open spec fn run_step(files: Files, step: StepView) -> Files {
    match step {
        StepView::Nothing => files,
        StepView::WriteShadow { path, content } => files.insert(path, content),
        StepView::Backup { target, backup } => files.insert(backup, files[target]),
        StepView::Rename { shadow, target } => files.insert(target, files[shadow]).remove(shadow),
        StepView::Remove { target } => files.remove(target),
        StepView::Restore { backup, target } => files.insert(target, files[backup]).remove(backup),
        StepView::Discard { path } => files.remove(path),
    }
}

/// The files after the first `k` of some steps.
pub open spec fn run_steps(files: Files, steps: Seq<StepView>, k: int) -> Files
    decreases k,
{
    if k <= 0 {
        files
    } else {
        run_step(run_steps(files, steps, k - 1), steps[k - 1])
    }
}

/// The files after the first `k` steps of a commit, phase by phase.
pub open spec fn run_forward(files: Files, plan: Seq<PlannedView>, k: int) -> Files
    decreases k,
{
    let n = plan.len() as int;
    if k <= 0 || n <= 0 {
        files
    } else {
        let before = run_forward(files, plan, k - 1);
        if k - 1 < n {
            run_step(before, forward_step(plan[k - 1], 0))
        } else if k - 1 < 2 * n {
            run_step(before, forward_step(plan[k - 1 - n], 1))
        } else {
            run_step(before, forward_step(plan[k - 1 - 2 * n], 2))
        }
    }
}

/// The files as the first `k` files of a plan want them.
pub open spec fn goal(files: Files, plan: Seq<PlannedView>, k: int) -> Files
    decreases k,
{
    if k <= 0 {
        files
    } else {
        match plan[k - 1].content {
            Some(content) => goal(files, plan, k - 1).insert(plan[k - 1].target, content),
            None => goal(files, plan, k - 1).remove(plan[k - 1].target),
        }
    }
}

/// Whether a plan fits a disk: its names differ, the shadows and the backups are free, and it
/// knows which of its files are there.
pub open spec fn fits(files: Files, plan: Seq<PlannedView>) -> bool {
    &&& names_differ(plan)
    &&& forall|i: int|
        0 <= i < plan.len() ==> {
            &&& !files.contains_key((#[trigger] plan[i]).shadow)
            &&& !files.contains_key(plan[i].backup)
            &&& plan[i].existed == files.contains_key(plan[i].target)
        }
}

/// What a file is, if it is there.
pub open spec fn at(files: Files, path: Seq<char>) -> Option<Seq<u8>> {
    if files.contains_key(path) {
        Some(files[path])
    } else {
        None
    }
}

/// Whether a path is a name of a plan.
pub open spec fn named(plan: Seq<PlannedView>, path: Seq<char>) -> bool {
    exists|i: int|
        0 <= i < plan.len() && ((#[trigger] plan[i]).target == path || plan[i].shadow == path
            || plan[i].backup == path)
}

/// Whether the files of the names of the file `i` are as they are after `k` steps.
spec fn file_midway(files: Files, plan: Seq<PlannedView>, k: int, i: int, now: Files) -> bool {
    let n = plan.len() as int;
    let f = plan[i];
    &&& at(now, f.target) == (if k > 2 * n + i {
        f.content
    } else {
        at(files, f.target)
    })
    &&& at(now, f.shadow) == (if k > i && k <= 2 * n + i {
        f.content
    } else {
        None
    })
    &&& at(now, f.backup) == (if k > n + i {
        at(files, f.target)
    } else {
        None
    })
}

/// Whether the files are as they are after `k` steps.
spec fn midway(files: Files, plan: Seq<PlannedView>, k: int, now: Files) -> bool {
    &&& forall|i: int| 0 <= i < plan.len() ==> #[trigger] file_midway(files, plan, k, i, now)
    &&& forall|p: Seq<char>| !named(plan, p) ==> #[trigger] at(now, p) == at(files, p)
}

/// What the files are after `k` steps.
proof fn lemma_midway(files: Files, plan: Seq<PlannedView>, k: int)
    requires
        fits(files, plan),
        0 <= k <= 3 * plan.len(),
    ensures
        midway(files, plan, k, run_forward(files, plan, k)),
    decreases k,
{
    let n = plan.len() as int;
    if k > 0 {
        lemma_midway(files, plan, k - 1);
        let before = run_forward(files, plan, k - 1);
        let after = run_forward(files, plan, k);
        let (phase, j): (int, int) = if k - 1 < n {
            (0, k - 1)
        } else if k - 1 < 2 * n {
            (1, k - 1 - n)
        } else {
            (2, k - 1 - 2 * n)
        };
        let f = plan[j];
        assert(after == run_step(before, forward_step(f, phase)));
        assert(file_midway(files, plan, k - 1, j, before));
        assert forall|i: int| 0 <= i < n implies #[trigger] file_midway(
            files,
            plan,
            k,
            i,
            after,
        ) by {
            assert(file_midway(files, plan, k - 1, i, before));
            let g = plan[i];
            if i != j {
                assert(g.target != f.target && g.shadow != f.shadow && g.backup != f.backup);
            }
        }
        assert forall|p: Seq<char>| !named(plan, p) implies #[trigger] at(after, p) == at(
            files,
            p,
        ) by {
            assert(at(before, p) == at(files, p));
            assert(p != f.target && p != f.shadow && p != f.backup);
        }
    } else {
        assert forall|i: int| 0 <= i < n implies #[trigger] file_midway(
            files,
            plan,
            0,
            i,
            files,
        ) by {}
    }
}

/// Files are the same where they are the same at every path.
proof fn lemma_same_files(a: Files, b: Files)
    requires
        forall|p: Seq<char>| #[trigger] at(a, p) == at(b, p),
    ensures
        a == b,
{
    assert forall|p: Seq<char>| a.contains_key(p) == b.contains_key(p) by {
        assert(at(a, p) == at(b, p));
    }
    assert forall|p: Seq<char>| a.contains_key(p) implies a[p] == b[p] by {
        assert(at(a, p) == at(b, p));
    }
    assert(a =~= b);
}

/// Whether the names of a file are as they were before.
spec fn file_restored(files: Files, f: PlannedView, now: Files) -> bool {
    &&& at(now, f.target) == at(files, f.target)
    &&& at(now, f.shadow) is None
    &&& at(now, f.backup) is None
}

/// What the files are after the undoing of `k` steps for the first `i` files.
proof fn lemma_undone(files: Files, plan: Seq<PlannedView>, k: int, i: int)
    requires
        fits(files, plan),
        0 <= k <= 3 * plan.len(),
        0 <= i <= plan.len(),
    ensures
        undo_steps(plan, k, i).len() == 2 * i,
        ({
            let now = run_steps(run_forward(files, plan, k), undo_steps(plan, k, i), 2 * i);
            &&& forall|j: int| 0 <= j < i ==> file_restored(files, #[trigger] plan[j], now)
            &&& forall|j: int|
                i <= j < plan.len() ==> #[trigger] file_midway(files, plan, k, j, now)
            &&& forall|p: Seq<char>| !named(plan, p) ==> #[trigger] at(now, p) == at(files, p)
        }),
    decreases i,
{
    let n = plan.len() as int;
    let start = run_forward(files, plan, k);
    if i == 0 {
        lemma_midway(files, plan, k);
    } else {
        lemma_undone(files, plan, k, i - 1);
        let steps = undo_steps(plan, k, i);
        let earlier = undo_steps(plan, k, i - 1);
        lemma_run_prefix(start, earlier, steps, 2 * (i - 1));
        let f = plan[i - 1];
        let before = run_steps(start, earlier, 2 * (i - 1));
        let middle = run_steps(start, steps, 2 * i - 1);
        let now = run_steps(start, steps, 2 * i);
        assert(middle == run_step(before, steps[2 * i - 2]));
        assert(now == run_step(middle, steps[2 * i - 1]));
        assert(file_midway(files, plan, k, i - 1, before));
        assert(file_restored(files, f, now));
        assert forall|j: int| 0 <= j < i implies file_restored(files, #[trigger] plan[j], now) by {
            let g = plan[j];
            if j < i - 1 {
                assert(file_restored(files, g, before));
                assert(g.target != f.target && g.shadow != f.shadow && g.backup != f.backup);
            }
        }
        assert forall|j: int| i <= j < n implies #[trigger] file_midway(files, plan, k, j, now) by {
            let g = plan[j];
            assert(file_midway(files, plan, k, j, before));
            assert(g.target != f.target && g.shadow != f.shadow && g.backup != f.backup);
        }
        assert forall|p: Seq<char>| !named(plan, p) implies #[trigger] at(now, p) == at(
            files,
            p,
        ) by {
            assert(at(before, p) == at(files, p));
            assert(p != f.target && p != f.shadow && p != f.backup);
        }
    }
}

/// What the first steps do depends on them alone.
proof fn lemma_run_prefix(files: Files, a: Seq<StepView>, b: Seq<StepView>, k: int)
    requires
        0 <= k <= a.len() <= b.len(),
        forall|i: int| 0 <= i < k ==> a[i] == b[i],
    ensures
        run_steps(files, a, k) == run_steps(files, b, k),
    decreases k,
{
    if k > 0 {
        lemma_run_prefix(files, a, b, k - 1);
    }
}

/// A commit that fails after any number of steps, and is undone, leaves every file as it was,
/// and no shadow or backup behind.
pub proof fn law_rollback_restores(files: Files, plan: Seq<PlannedView>, k: int)
    requires
        fits(files, plan),
        0 <= k <= 3 * plan.len(),
    ensures
        run_steps(
            run_forward(files, plan, k),
            undo_steps(plan, k, plan.len() as int),
            2 * plan.len() as int,
        ) == files,
{
    let n = plan.len() as int;
    lemma_undone(files, plan, k, n);
    let now = run_steps(run_forward(files, plan, k), undo_steps(plan, k, n), 2 * n);
    assert forall|p: Seq<char>| #[trigger] at(now, p) == at(files, p) by {
        if named(plan, p) {
            let i = choose|i: int|
                0 <= i < plan.len() && ((#[trigger] plan[i]).target == p || plan[i].shadow == p
                    || plan[i].backup == p);
            assert(file_restored(files, plan[i], now));
        }
    }
    lemma_same_files(now, files);
}

/// When a plan is done, each of its files is as the plan wants it, and the others are as they
/// were.
pub proof fn law_goal(files: Files, plan: Seq<PlannedView>, k: int)
    requires
        fits(files, plan),
        0 <= k <= plan.len(),
    ensures
        forall|i: int|
            0 <= i < k ==> at(goal(files, plan, k), (#[trigger] plan[i]).target)
                == plan[i].content,
        forall|p: Seq<char>|
            (forall|i: int| 0 <= i < k ==> (#[trigger] plan[i]).target != p) ==> #[trigger] at(
                goal(files, plan, k),
                p,
            ) == at(files, p),
    decreases k,
{
    if k > 0 {
        law_goal(files, plan, k - 1);
        let before = goal(files, plan, k - 1);
        let after = goal(files, plan, k);
        let f = plan[k - 1];
        assert forall|i: int| 0 <= i < k implies at(after, (#[trigger] plan[i]).target)
            == plan[i].content by {
            if i < k - 1 {
                assert(at(before, plan[i].target) == plan[i].content);
                assert(plan[i].target != f.target);
            }
        }
        assert forall|p: Seq<char>|
            (forall|i: int| 0 <= i < k ==> (#[trigger] plan[i]).target != p) implies #[trigger] at(
            after,
            p,
        ) == at(files, p) by {
            assert(plan[k - 1].target != p);
            assert(at(before, p) == at(files, p));
        }
    }
}

/// What the files are after the first `k` steps of the cleaning up.
proof fn lemma_cleaned(files: Files, plan: Seq<PlannedView>, k: int)
    requires
        fits(files, plan),
        0 <= k <= plan.len(),
    ensures
        ({
            let done = run_forward(files, plan, 3 * plan.len() as int);
            let now = run_steps(done, cleanup_steps(plan), k);
            &&& forall|i: int|
                0 <= i < plan.len() ==> at(now, (#[trigger] plan[i]).target) == plan[i].content
                    && at(now, plan[i].shadow) is None && (i < k ==> at(now, plan[i].backup) is None)
                    && (i >= k ==> at(now, plan[i].backup) == at(files, plan[i].target))
            &&& forall|p: Seq<char>| !named(plan, p) ==> #[trigger] at(now, p) == at(files, p)
        }),
    decreases k,
{
    let n = plan.len() as int;
    let done = run_forward(files, plan, 3 * n);
    if k == 0 {
        lemma_midway(files, plan, 3 * n);
        assert forall|i: int| 0 <= i < n implies at(done, (#[trigger] plan[i]).target)
            == plan[i].content && at(done, plan[i].shadow) is None && at(done, plan[i].backup)
            == at(files, plan[i].target) by {
            assert(file_midway(files, plan, 3 * n, i, done));
        }
    } else {
        lemma_cleaned(files, plan, k - 1);
        let before = run_steps(done, cleanup_steps(plan), k - 1);
        let now = run_steps(done, cleanup_steps(plan), k);
        let f = plan[k - 1];
        assert(now == run_step(before, cleanup_steps(plan)[k - 1]));
        assert forall|i: int| 0 <= i < n implies at(now, (#[trigger] plan[i]).target)
            == plan[i].content && at(now, plan[i].shadow) is None && (i < k ==> at(
            now,
            plan[i].backup,
        ) is None) && (i >= k ==> at(now, plan[i].backup) == at(files, plan[i].target)) by {
            let g = plan[i];
            assert(at(before, g.target) == g.content);
            assert(g.target != f.backup && g.shadow != f.backup);
            if i != k - 1 {
                assert(g.backup != f.backup);
            }
        }
        assert forall|p: Seq<char>| !named(plan, p) implies #[trigger] at(now, p) == at(
            files,
            p,
        ) by {
            assert(at(before, p) == at(files, p));
            assert(p != f.backup);
        }
    }
}

/// A commit in which every step goes well leaves every file of the plan as the plan wants it,
/// every other file as it was, and no shadow or backup behind.
pub proof fn law_commit_reaches_goal(files: Files, plan: Seq<PlannedView>)
    requires
        fits(files, plan),
    ensures
        run_steps(
            run_forward(files, plan, 3 * plan.len() as int),
            cleanup_steps(plan),
            plan.len() as int,
        ) == goal(files, plan, plan.len() as int),
{
    let n = plan.len() as int;
    lemma_cleaned(files, plan, n);
    law_goal(files, plan, n);
    let now = run_steps(run_forward(files, plan, 3 * n), cleanup_steps(plan), n);
    let end = goal(files, plan, n);
    assert forall|p: Seq<char>| #[trigger] at(now, p) == at(end, p) by {
        if exists|i: int| 0 <= i < n && (#[trigger] plan[i]).target == p {
            let i = choose|i: int| 0 <= i < n && (#[trigger] plan[i]).target == p;
            assert(at(end, plan[i].target) == plan[i].content);
            assert(at(now, plan[i].target) == plan[i].content);
        } else {
            assert(at(end, p) == at(files, p));
            if named(plan, p) {
                let i = choose|i: int|
                    0 <= i < plan.len() && ((#[trigger] plan[i]).target == p || plan[i].shadow
                        == p || plan[i].backup == p);
                assert(at(now, plan[i].target) == plan[i].content);
                assert(!files.contains_key(plan[i].shadow));
            }
        }
    }
    lemma_same_files(now, end);
}

// ---------------------------------------------------------------------------
// Planning
// ---------------------------------------------------------------------------

/// Whether a path is that of one of some files.
pub open spec fn is_target(files: Seq<workspace::StagedView>, path: Seq<char>) -> bool {
    exists|i: int| 0 <= i < files.len() && (#[trigger] files[i]).path == path
}

/// The path of the backup of one of some files. The usual name is left to a file that has it, and
/// one with a suffix taken.
pub open spec fn free_backup_name(
    files: Seq<workspace::StagedView>,
    path: Seq<char>,
    suffix: Seq<char>,
) -> Seq<char> {
    if is_target(files, backup_name(path)) {
        backup_name(path + "."@ + suffix)
    } else {
        backup_name(path)
    }
}

/// The plan for some files, with a suffix for the shadow of each.
pub open spec fn planned(
    disk: Seq<workspace::EntryView>,
    files: Seq<workspace::StagedView>,
    suffixes: Seq<Seq<char>>,
) -> Seq<PlannedView> {
    Seq::new(
        files.len(),
        |i: int|
            PlannedView {
                target: files[i].path,
                content: files[i].content,
                existed: workspace::on_disk(disk, files[i].path),
                shadow: shadow_name(files[i].path, suffixes[i]),
                backup: free_backup_name(files, files[i].path, suffixes[i]),
            },
    )
}

/// Names of a plan clash by chance alone: they differ where the files do, where the suffixes do,
/// and where no path of a file holds a suffix.
pub proof fn law_names_clash_by_chance(
    disk: Seq<workspace::EntryView>,
    files: Seq<workspace::StagedView>,
    suffixes: Seq<Seq<char>>,
)
    requires
        suffixes.len() == files.len(),
        workspace::distinct(files),
        forall|i: int| 0 <= i < suffixes.len() ==> (#[trigger] suffixes[i]).len() == 36,
        forall|i: int, j: int|
            0 <= i < j < suffixes.len() ==> #[trigger] suffixes[i] != #[trigger] suffixes[j],
        forall|i: int, j: int|
            0 <= i < files.len() && 0 <= j < suffixes.len() ==> !text::contains(
                (#[trigger] files[i]).path,
                #[trigger] suffixes[j],
            ),
    ensures
        names_differ(planned(disk, files, suffixes)),
{
    let plan = planned(disk, files, suffixes);
    lemma_names_differ(plan);
    assert forall|i: int, j: int| 0 <= i < plan.len() && 0 <= j < plan.len() implies #[trigger]
        pair_differs(plan, i, j) by {
        let (p, q) = (files[i].path, files[j].path);
        let (s, t) = (suffixes[i], suffixes[j]);
        lemma_shadow_name(p, s);
        lemma_shadow_name(q, t);
        lemma_backup_name(p, q);
        lemma_backup_name(p + "."@ + s, q);
        lemma_backup_name(p, q + "."@ + t);
        lemma_backup_name(p + "."@ + s, q + "."@ + t);
        lemma_suffixed(p, s);
        lemma_suffixed(q, t);
        assert(!text::contains(p, t) && !text::contains(q, s) && !text::contains(p, s));
        if i != j {
            assert(s != t) by {
                if i < j {
                    assert(suffixes[i] != suffixes[j]);
                } else {
                    assert(suffixes[j] != suffixes[i]);
                }
            }
            assert(p != q);
        }
        if is_target(files, backup_name(q)) {
            lemma_held(q + "."@ + t, t, ".backup_tmp"@);
        } else {
            assert(files[i].path == p);
        }
        lemma_held(q + "."@ + t, t, ".patch_tmp"@);
    }
}

/// How the name of a shadow ends.
proof fn lemma_shadow_name(path: Seq<char>, suffix: Seq<char>)
    ensures
        ({
            let name = shadow_name(path, suffix);
            &&& name == path + "."@ + suffix + ".patch_tmp"@
            &&& name.len() == path.len() + suffix.len() + 11
            &&& name[name.len() - 10] == '.'
            &&& name.subrange(name.len() - 10 - suffix.len(), name.len() - 10) == suffix
        }),
{
    reveal_strlit(".");
    reveal_strlit(".patch_tmp");
    let name = shadow_name(path, suffix);
    assert(name.subrange(name.len() - 10 - suffix.len(), name.len() - 10) =~= suffix);
}

/// How the name of a backup ends, and that it tells the path.
proof fn lemma_backup_name(path: Seq<char>, other: Seq<char>)
    ensures
        backup_name(path).len() == path.len() + 11,
        backup_name(path)[backup_name(path).len() - 10] == 'b',
        backup_name(path) == backup_name(other) ==> path == other,
{
    reveal_strlit(".backup_tmp");
    assert(backup_name(path).take(path.len() as int) =~= path);
    assert(backup_name(other).take(other.len() as int) =~= other);
}

/// A path with a suffix holds it, and ends with it.
proof fn lemma_suffixed(path: Seq<char>, suffix: Seq<char>)
    ensures
        ({
            let name = path + "."@ + suffix;
            &&& text::contains(name, suffix)
            &&& name.subrange(name.len() - suffix.len(), name.len() as int) == suffix
        }),
{
    reveal_strlit(".");
    let name = path + "."@ + suffix;
    assert(name.subrange(name.len() - suffix.len(), name.len() as int) =~= suffix);
    text::lemma_contains(name, suffix, path.len() as int + 1);
}

/// What a text holds, it holds when it goes on.
proof fn lemma_held(path: Seq<char>, suffix: Seq<char>, rest: Seq<char>)
    requires
        text::contains(path, suffix),
    ensures
        text::contains(path + rest, suffix),
{
    text::lemma_find(path, suffix);
    let k = text::find(path, suffix)->0;
    assert((path + rest).subrange(k, k + suffix.len()) =~= path.subrange(k, k + suffix.len()));
    text::lemma_contains(path + rest, suffix, k);
}

/// Whether the names of the file `i` and the file `j` of a plan differ.
spec fn pair_differs(plan: Seq<PlannedView>, i: int, j: int) -> bool {
    let (a, b) = (plan[i], plan[j]);
    &&& a.target != b.shadow
    &&& a.target != b.backup
    &&& a.shadow != b.backup
    &&& i != j ==> a.target != b.target && a.shadow != b.shadow && a.backup != b.backup
}

/// Whether the names of a plan differ, pair by pair.
proof fn lemma_names_differ(plan: Seq<PlannedView>)
    ensures
        names_differ(plan) == (forall|i: int, j: int|
            0 <= i < plan.len() && 0 <= j < plan.len() ==> #[trigger] pair_differs(plan, i, j)),
{
    if names_differ(plan) {
        assert forall|i: int, j: int|
            0 <= i < plan.len() && 0 <= j < plan.len() implies #[trigger] pair_differs(plan, i, j) by {
            if j < i {
                assert(plan[j].target != plan[i].target);
            }
        }
    }
    if forall|i: int, j: int|
        0 <= i < plan.len() && 0 <= j < plan.len() ==> #[trigger] pair_differs(plan, i, j) {
        assert forall|i: int, j: int| 0 <= i < plan.len() && 0 <= j < plan.len() implies (
        #[trigger] plan[i]).target != (#[trigger] plan[j]).shadow && plan[i].target
            != plan[j].backup && plan[i].shadow != plan[j].backup by {
            assert(pair_differs(plan, i, j));
        }
        assert forall|i: int, j: int| 0 <= i < j < plan.len() implies (#[trigger] plan[i]).target
            != (#[trigger] plan[j]).target && plan[i].shadow != plan[j].shadow && plan[i].backup
            != plan[j].backup by {
            assert(pair_differs(plan, i, j));
        }
    }
}

/// Whether no two names of a plan are the same.
fn check_names(plan: &Vec<PlannedFile>) -> (r: bool)
    ensures
        r == names_differ(planned_views(plan@)),
{
    let ghost views = planned_views(plan@);
    proof {
        lemma_names_differ(views);
    }
    let n: usize = plan.len();
    let mut i: usize = 0;
    while i < n
        invariant
            0 <= i <= n == plan@.len(),
            views == planned_views(plan@),
            names_differ(views) == (forall|i: int, j: int|
                0 <= i < views.len() && 0 <= j < views.len() ==> #[trigger] pair_differs(views, i, j)),
            forall|a: int, b: int|
                0 <= a < i && 0 <= b < n ==> #[trigger] pair_differs(views, a, b),
        decreases n - i,
    {
        let mut j: usize = 0;
        while j < n
            invariant
                0 <= i < n == plan@.len(),
                0 <= j <= n,
                views == planned_views(plan@),
                names_differ(views) == (forall|i: int, j: int|
                    0 <= i < views.len() && 0 <= j < views.len() ==> #[trigger] pair_differs(views, i, j)),
                forall|a: int, b: int|
                    0 <= a < i && 0 <= b < n ==> #[trigger] pair_differs(views, a, b),
                forall|b: int|
                    0 <= b < j ==> #[trigger] pair_differs(views, i as int, b),
            decreases n - j,
        {
            let (a, b) = (&plan[i], &plan[j]);
            assert(views[i as int] == a@ && views[j as int] == b@);
            let crossed = same_text(a.target.as_str(), b.shadow.as_str()) || same_text(
                a.target.as_str(),
                b.backup.as_str(),
            ) || same_text(a.shadow.as_str(), b.backup.as_str());
            let doubled = i != j && (same_text(a.target.as_str(), b.target.as_str()) || same_text(
                a.shadow.as_str(),
                b.shadow.as_str(),
            ) || same_text(a.backup.as_str(), b.backup.as_str()));
            if crossed || doubled {
                assert(!pair_differs(views, i as int, j as int));
                return false;
            }
            assert(pair_differs(views, i as int, j as int));
            j += 1;
        }
        i += 1;
    }
    true
}

/// The error of a plan with two names that are the same.
pub open spec fn name_clash() -> error::PatchErrorView {
    error::PatchErrorView::Io("Temporary file names clash"@)
}

/// The path of the backup of one of some files.
fn free_backup_path(files: &Vec<StagedFile>, path: &str, suffix: &str) -> (r: String)
    ensures
        r@ == free_backup_name(workspace::staged_views(files@), path@, suffix@),
{
    let ghost views = workspace::staged_views(files@);
    let usual = backup_path_for(path);
    let mut i: usize = 0;
    while i < files.len()
        invariant
            0 <= i <= files@.len(),
            views == workspace::staged_views(files@),
            usual@ == backup_name(path@),
            forall|j: int| 0 <= j < i ==> (#[trigger] views[j]).path != usual@,
        decreases files@.len() - i,
    {
        assert(views[i as int] == files@[i as int]@);
        if same_text(files[i].path.as_str(), usual.as_str()) {
            return backup_path_for(cat3(path, ".", suffix).as_str());
        }
        i += 1;
    }
    usual
}

/// Plans the writing of some files, with a suffix for the shadow of each.
pub fn plan_with(session: &PatchSession, files: &Vec<StagedFile>, suffixes: &Vec<String>) -> (r:
    Result<Vec<PlannedFile>, PatchError>)
    requires
        suffixes@.len() == files@.len(),
    ensures
        ({
            let plan = planned(
                session@.disk,
                workspace::staged_views(files@),
                lists::texts(suffixes@),
            );
            match r {
                Ok(p) => planned_views(p@) == plan && names_differ(plan),
                Err(e) => e@ == name_clash() && !names_differ(plan),
            }
        }),
{
    let ghost views = workspace::staged_views(files@);
    let ghost all = planned(session@.disk, views, lists::texts(suffixes@));
    let mut plan: Vec<PlannedFile> = Vec::new();
    let mut i: usize = 0;
    while i < files.len()
        invariant
            0 <= i <= files@.len() == suffixes@.len(),
            views == workspace::staged_views(files@),
            all == planned(session@.disk, views, lists::texts(suffixes@)),
            planned_views(plan@) == all.take(i as int),
        decreases files@.len() - i,
    {
        let f = &files[i];
        assert(views[i as int] == f@);
        let content = match &f.content {
            Some(b) => Some(copy_bytes(b)),
            None => None,
        };
        let p = PlannedFile {
            target: f.path.clone(),
            content,
            existed: session.is_on_disk(f.path.as_str()),
            shadow: shadow_path_with(f.path.as_str(), suffixes[i].as_str()),
            backup: free_backup_path(files, f.path.as_str(), suffixes[i].as_str()),
        };
        assert(p@ =~= all[i as int]);
        let ghost before = plan@;
        plan.push(p);
        assert(planned_views(plan@) =~= planned_views(before).push(p@));
        i += 1;
        assert(planned_views(plan@) =~= all.take(i as int));
    }
    assert(planned_views(plan@) =~= all);
    if check_names(&plan) {
        Ok(plan)
    } else {
        Err(PatchError::Io("Temporary file names clash".to_owned()))
    }
}

/// Plans the writing of some files. The shadows have suffixes of chance.
pub fn plan_commit(session: &PatchSession, files: &Vec<StagedFile>) -> (r: Result<
    Vec<PlannedFile>,
    PatchError,
>)
    ensures
        exists|suffixes: Seq<Seq<char>>|
            suffixes.len() == files@.len() && (forall|i: int|
                0 <= i < suffixes.len() ==> (#[trigger] suffixes[i]).len() == 36 && is_suffix(
                    suffixes[i],
                )) && ({
                let plan = #[trigger] planned(
                    session@.disk,
                    workspace::staged_views(files@),
                    suffixes,
                );
                match r {
                    Ok(p) => planned_views(p@) == plan && names_differ(plan),
                    Err(e) => e@ == name_clash() && !names_differ(plan),
                }
            }),
{
    let mut suffixes: Vec<String> = Vec::new();
    while suffixes.len() < files.len()
        invariant
            suffixes@.len() <= files@.len(),
            forall|i: int|
                0 <= i < suffixes@.len() ==> (#[trigger] suffixes@[i])@.len() == 36 && is_suffix(
                    suffixes@[i]@,
                ),
        decreases files@.len() - suffixes@.len(),
    {
        suffixes.push(shadow_suffix());
    }
    let r = plan_with(session, files, &suffixes);
    proof {
        let list = lists::texts(suffixes@);
        assert forall|i: int| 0 <= i < list.len() implies (#[trigger] list[i]).len() == 36
            && is_suffix(list[i]) by {
            assert(list[i] == suffixes@[i]@);
        }
        let plan = planned(session@.disk, workspace::staged_views(files@), list);
    }
    r
}

/// The steps of a phase, one for each file.
pub fn steps_of_phase(plan: &Vec<PlannedFile>, phase: Phase) -> (r: Vec<Step>)
    ensures
        step_views(r@) == phase_steps(planned_views(plan@), phase_number(phase)),
{
    let ghost all = phase_steps(planned_views(plan@), phase_number(phase));
    let mut out: Vec<Step> = Vec::new();
    let mut i: usize = 0;
    while i < plan.len()
        invariant
            0 <= i <= plan@.len(),
            all == phase_steps(planned_views(plan@), phase_number(phase)),
            step_views(out@) == all.take(i as int),
        decreases plan@.len() - i,
    {
        let f = &plan[i];
        let step = match phase {
            Phase::Shadow => match &f.content {
                Some(b) => Step::WriteShadow { path: f.shadow.clone(), content: copy_bytes(b) },
                None => Step::Nothing,
            },
            Phase::Backup => if f.existed {
                Step::Backup { target: f.target.clone(), backup: f.backup.clone() }
            } else {
                Step::Nothing
            },
            Phase::Swap => match &f.content {
                Some(_) => Step::Rename { shadow: f.shadow.clone(), target: f.target.clone() },
                None => if f.existed {
                    Step::Remove { target: f.target.clone() }
                } else {
                    Step::Nothing
                },
            },
        };
        assert(step@ == all[i as int]);
        let ghost before = out@;
        out.push(step);
        assert(step_views(out@) =~= step_views(before).push(step@));
        i += 1;
        assert(step_views(out@) =~= all.take(i as int));
    }
    assert(step_views(out@) =~= all);
    out
}

/// The steps that undo the phases before `phase` and the first `done` steps of it.
pub fn steps_to_undo(plan: &Vec<PlannedFile>, phase: Phase, done: usize) -> (r: Vec<Step>)
    requires
        done <= plan@.len(),
    ensures
        step_views(r@) == undo_steps(
            planned_views(plan@),
            phase_number(phase) * plan@.len() + done,
            plan@.len() as int,
        ),
{
    let ghost views = planned_views(plan@);
    let ghost k = phase_number(phase) * plan@.len() + done;
    let mut out: Vec<Step> = Vec::new();
    let mut i: usize = 0;
    assert(step_views(out@) =~= undo_steps(views, k, 0));
    while i < plan.len()
        invariant
            0 <= i <= plan@.len(),
            done <= plan@.len(),
            views == planned_views(plan@),
            k == phase_number(phase) * plan@.len() + done,
            step_views(out@) == undo_steps(views, k, i as int),
        decreases plan@.len() - i,
    {
        let f = &plan[i];
        assert(views[i as int] == f@);
        let here = i < done;
        let (written, saved, swapped) = match phase {
            Phase::Shadow => (here, false, false),
            Phase::Backup => (true, here, false),
            Phase::Swap => (true, true, here),
        };
        let first = if swapped {
            if f.existed {
                Step::Restore { backup: f.backup.clone(), target: f.target.clone() }
            } else if f.content.is_some() {
                Step::Discard { path: f.target.clone() }
            } else {
                Step::Nothing
            }
        } else if written && f.content.is_some() {
            Step::Discard { path: f.shadow.clone() }
        } else {
            Step::Nothing
        };
        let second = if !swapped && saved && f.existed {
            Step::Discard { path: f.backup.clone() }
        } else {
            Step::Nothing
        };
        let ghost before = out@;
        out.push(first);
        out.push(second);
        assert(step_views(out@) =~= step_views(before).push(first@).push(second@));
        i += 1;
    }
    out
}

/// The phase that comes after a phase.
pub open spec fn phase_after(phase: Phase) -> Option<Phase> {
    match phase {
        Phase::Shadow => Some(Phase::Backup),
        Phase::Backup => Some(Phase::Swap),
        Phase::Swap => None,
    }
}

/// What comes after the first `done` steps of a phase: where the next step failed, the steps that
/// undo what was done; else the steps of the next phase, or those that clean up behind the last.
/// No phase is named where the steps are the last ones.
pub fn next_steps(plan: &Vec<PlannedFile>, phase: Phase, done: usize, failed: bool) -> (r: (
    Vec<Step>,
    Option<Phase>,
))
    requires
        done <= plan@.len(),
        !failed ==> done == plan@.len(),
    ensures
        ({
            let views = planned_views(plan@);
            if failed {
                &&& step_views(r.0@) == undo_steps(
                    views,
                    phase_number(phase) * plan@.len() + done,
                    plan@.len() as int,
                )
                &&& r.1 is None
            } else {
                &&& r.1 == phase_after(phase)
                &&& match phase_after(phase) {
                    Some(next) => step_views(r.0@) == phase_steps(views, phase_number(next)),
                    None => step_views(r.0@) == cleanup_steps(views),
                }
            }
        }),
{
    if failed {
        return (steps_to_undo(plan, phase, done), None);
    }
    match phase {
        Phase::Shadow => (steps_of_phase(plan, Phase::Backup), Some(Phase::Backup)),
        Phase::Backup => (steps_of_phase(plan, Phase::Swap), Some(Phase::Swap)),
        Phase::Swap => (steps_to_clean(plan), None),
    }
}

/// The steps that take away the backups when all went well.
pub fn steps_to_clean(plan: &Vec<PlannedFile>) -> (r: Vec<Step>)
    ensures
        step_views(r@) == cleanup_steps(planned_views(plan@)),
{
    let ghost all = cleanup_steps(planned_views(plan@));
    let mut out: Vec<Step> = Vec::new();
    let mut i: usize = 0;
    while i < plan.len()
        invariant
            0 <= i <= plan@.len(),
            all == cleanup_steps(planned_views(plan@)),
            step_views(out@) == all.take(i as int),
        decreases plan@.len() - i,
    {
        let f = &plan[i];
        let step = if f.existed {
            Step::Discard { path: f.backup.clone() }
        } else {
            Step::Nothing
        };
        assert(step@ == all[i as int]);
        let ghost before = out@;
        out.push(step);
        assert(step_views(out@) =~= step_views(before).push(step@));
        i += 1;
        assert(step_views(out@) =~= all.take(i as int));
    }
    assert(step_views(out@) =~= all);
    out
}

// ---------------------------------------------------------------------------
// Laws of the phases
// ---------------------------------------------------------------------------

/// The steps of a phase, run one after the other behind the phases before it, are the steps of a
/// commit.
proof fn lemma_phase_runs(files: Files, plan: Seq<PlannedView>, phase: int, k: int)
    requires
        0 <= phase <= 2,
        0 <= k <= plan.len(),
    ensures
        run_steps(
            run_forward(files, plan, phase * plan.len() as int),
            phase_steps(plan, phase),
            k,
        ) == run_forward(files, plan, phase * plan.len() as int + k),
    decreases k,
{
    let n = plan.len() as int;
    if k > 0 {
        lemma_phase_runs(files, plan, phase, k - 1);
        assert(phase_steps(plan, phase)[k - 1] == forward_step(plan[k - 1], phase));
        if phase == 0 {
            assert(0 * n == 0);
        } else if phase == 1 {
            assert(1 * n == n);
        } else {
            assert(phase * n == 2 * n);
        }
    }
}

/// A commit is its three phases, one after the other: first all new contents are written beside
/// their files, then all files that were there are backed up, and only then are they replaced.
pub proof fn law_three_phases(files: Files, plan: Seq<PlannedView>)
    ensures
        ({
            let n = plan.len() as int;
            let written = run_steps(files, phase_steps(plan, phase_number(Phase::Shadow)), n);
            let saved = run_steps(written, phase_steps(plan, phase_number(Phase::Backup)), n);
            run_steps(saved, phase_steps(plan, phase_number(Phase::Swap)), n) == run_forward(
                files,
                plan,
                3 * n,
            )
        }),
        phase_after(Phase::Shadow) == Some(Phase::Backup),
        phase_after(Phase::Backup) == Some(Phase::Swap),
        phase_after(Phase::Swap) is None,
{
    let n = plan.len() as int;
    lemma_phase_runs(files, plan, 0, n);
    lemma_phase_runs(files, plan, 1, n);
    lemma_phase_runs(files, plan, 2, n);
    assert(0 * n == 0 && 1 * n == n);
}

/// No file is touched before the last phase: until then each is as it was.
pub proof fn law_files_wait(files: Files, plan: Seq<PlannedView>, k: int, i: int)
    requires
        fits(files, plan),
        0 <= k <= 2 * plan.len(),
        0 <= i < plan.len(),
    ensures
        at(run_forward(files, plan, k), plan[i].target) == at(files, plan[i].target),
{
    lemma_midway(files, plan, k);
    assert(file_midway(files, plan, k, i, run_forward(files, plan, k)));
}

/// A plan is for the files that are staged, each with what it is to be and whether it is there. What
/// is written first, and what is saved, stands beside it, under its path and more.
pub proof fn law_plan(
    disk: Seq<workspace::EntryView>,
    files: Seq<workspace::StagedView>,
    suffixes: Seq<Seq<char>>,
    i: int,
)
    requires
        0 <= i < files.len(),
        suffixes.len() == files.len(),
    ensures
        ({
            let f = planned(disk, files, suffixes)[i];
            &&& planned(disk, files, suffixes).len() == files.len()
            &&& f.target == files[i].path && f.content == files[i].content
            &&& f.existed <==> (workspace::node_at(disk, files[i].path) matches Some(
                workspace::NodeView::File(_),
            ))
            &&& f.shadow == files[i].path + "."@ + suffixes[i] + ".patch_tmp"@
            &&& (forall|j: int|
                0 <= j < files.len() ==> (#[trigger] files[j]).path != files[i].path
                    + ".backup_tmp"@) ==> f.backup == files[i].path + ".backup_tmp"@
            &&& (exists|j: int|
                0 <= j < files.len() && (#[trigger] files[j]).path == files[i].path
                    + ".backup_tmp"@) ==> f.backup == files[i].path + "."@ + suffixes[i]
                + ".backup_tmp"@
        }),
{
}

} // verus!
