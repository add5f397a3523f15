//! Applying hunks to the lines of a file.

use vstd::prelude::*;
use vstd::string::*;

use crate::error;
use crate::error::{cat2, cat3, ContextNotFoundData, PatchError};
use crate::excerpt;
use crate::excerpt::nearest_excerpt_with_matches;
use crate::hints;
use crate::hints::{find_with_hint, pick_by_hint};
use crate::lists;
use crate::matching;
use crate::matching::{find_matches_with_type, slice_texts};
use crate::numbers;
use crate::numbers::decimal_of;
use crate::patch;
use crate::patch::{DiffLine, Hunk};
use crate::similarity::Threshold;
use crate::text;
use crate::text::{chars_of, join_rows, join_texts, string_of, trimmed_end};

verus! {

broadcast use crate::lists::group_lists;

/// Where a hunk was applied, and how its place was found.
#[derive(Debug)]
pub struct HunkResult {
    pub match_type: String,
    /// The line of the match, from one; for lines that were appended, the lines before them.
    pub matched_at: usize,
}

/// The contents of a `HunkResult`.
#[verifier::ext_equal]
pub struct HunkResultView {
    pub match_type: Seq<char>,
    pub matched_at: usize,
}

impl View for HunkResult {
    type V = HunkResultView;

    open spec fn view(&self) -> HunkResultView {
        HunkResultView { match_type: self.match_type@, matched_at: self.matched_at }
    }
}

/// The contents of a list of hunk results.
pub open spec fn result_views(v: Seq<HunkResult>) -> Seq<HunkResultView> {
    v.map_values(|h: HunkResult| h@)
}

// ---------------------------------------------------------------------------
// The two sides of a hunk
// ---------------------------------------------------------------------------

/// The lines that the first `k` lines of a hunk expect in the file.
pub open spec fn expected(lines: Seq<patch::DiffLineView>, k: int) -> Seq<Seq<char>>
    decreases k,
{
    if k <= 0 {
        Seq::empty()
    } else {
        match lines[k - 1] {
            patch::DiffLineView::Context(s) => expected(lines, k - 1).push(s),
            patch::DiffLineView::Remove(s) => expected(lines, k - 1).push(s),
            patch::DiffLineView::Add(_) => expected(lines, k - 1),
        }
    }
}

/// The lines that a hunk expects in the file.
pub open spec fn pattern_of(lines: Seq<patch::DiffLineView>) -> Seq<Seq<char>> {
    expected(lines, lines.len() as int)
}

/// The lines that the first `k` lines of a hunk bring in.
pub open spec fn additions(lines: Seq<patch::DiffLineView>, k: int) -> Seq<Seq<char>>
    decreases k,
{
    if k <= 0 {
        Seq::empty()
    } else {
        match lines[k - 1] {
            patch::DiffLineView::Add(s) => additions(lines, k - 1).push(s),
            _ => additions(lines, k - 1),
        }
    }
}

/// What the first `k` lines of a hunk make of the lines of the file from `at` on. A line that
/// stays is kept as the file has it.
pub open spec fn rewritten(
    file: Seq<Seq<char>>,
    lines: Seq<patch::DiffLineView>,
    at: int,
    k: int,
) -> Seq<Seq<char>>
    decreases k,
{
    if k <= 0 {
        Seq::empty()
    } else {
        let before = rewritten(file, lines, at, k - 1);
        match lines[k - 1] {
            patch::DiffLineView::Context(_) => before.push(
                file[at + expected(lines, k - 1).len()],
            ),
            patch::DiffLineView::Remove(_) => before,
            patch::DiffLineView::Add(s) => before.push(s),
        }
    }
}

/// The file with a hunk applied at the place `at`.
pub open spec fn applied_at(
    file: Seq<Seq<char>>,
    lines: Seq<patch::DiffLineView>,
    at: int,
) -> Seq<Seq<char>> {
    file.take(at) + rewritten(file, lines, at, lines.len() as int) + file.skip(
        at + pattern_of(lines).len(),
    )
}

// ---------------------------------------------------------------------------
// The place of a hunk
// ---------------------------------------------------------------------------

/// The error of a pattern that was not found.
pub open spec fn not_found(
    file: Seq<Seq<char>>,
    pattern: Seq<Seq<char>>,
    hint: Option<Seq<char>>,
    path: Seq<char>,
) -> error::PatchErrorView {
    error::PatchErrorView::ContextNotFound(
        error::NotFoundView {
            path,
            pattern,
            hint,
            total_lines: file.len() as usize,
            file_excerpt: excerpt::excerpt(file, pattern),
            closest_matches: excerpt::closest_matches(file, pattern),
        },
    )
}

/// The first lines of the file from `at` on.
pub open spec fn context_at(file: Seq<Seq<char>>, at: int) -> Seq<char> {
    text::join(
        matching::trimmed_lines(
            file.subrange(at, excerpt::cut_end(file.len() as int, at, 3)),
        ),
        "\n"@,
    )
}

/// The error of a pattern that was found more than once.
pub open spec fn ambiguous(
    file: Seq<Seq<char>>,
    places: Seq<usize>,
    path: Seq<char>,
) -> error::PatchErrorView {
    error::PatchErrorView::AmbiguousContext {
        path,
        count: places.len() as usize,
        match_positions: places,
        context_at_each: places.map_values(|p: usize| context_at(file, p as int)),
    }
}

/// Where a hunk belongs: at the one place that its pattern is found at; if it is found at
/// several, at the one that the hint picks; if it is found at none, where the hint leads to.
pub open spec fn hunk_place(
    file: Seq<Seq<char>>,
    hunk: patch::HunkView,
    path: Seq<char>,
    t: Threshold,
) -> Result<int, error::PatchErrorView> {
    let pattern = pattern_of(hunk.lines);
    let places = matching::found(file, pattern, t).places;
    if places.len() == 0 {
        match hunk.context_hint {
            Some(h) => match hints::place_by_hint(file, pattern, h) {
                Some(at) => Ok(at),
                None => Err(not_found(file, pattern, Some("@@ hint: "@ + h), path)),
            },
            None => Err(not_found(file, pattern, None, path)),
        }
    } else if places.len() == 1 {
        Ok(places[0] as int)
    } else {
        match hunk.context_hint {
            Some(h) => match hints::picked(file, h, places, pattern.len() as int) {
                Some(at) => Ok(at),
                None => Err(ambiguous(file, places, path)),
            },
            None => Err(ambiguous(file, places, path)),
        }
    }
}

/// What a hunk makes of a file. A hunk that expects nothing is appended.
pub open spec fn hunk_outcome(
    file: Seq<Seq<char>>,
    hunk: patch::HunkView,
    path: Seq<char>,
    t: Threshold,
) -> Result<(Seq<Seq<char>>, HunkResultView), error::PatchErrorView> {
    let pattern = pattern_of(hunk.lines);
    if pattern.len() == 0 {
        Ok(
            (
                file + additions(hunk.lines, hunk.lines.len() as int),
                HunkResultView { match_type: "append"@, matched_at: file.len() as usize },
            ),
        )
    } else {
        match hunk_place(file, hunk, path, t) {
            Ok(at) => Ok(
                (
                    applied_at(file, hunk.lines, at),
                    HunkResultView {
                        match_type: matching::found(file, pattern, t).how,
                        matched_at: (at + 1) as usize,
                    },
                ),
            ),
            Err(e) => Err(e),
        }
    }
}

/// A place at which a pattern is found has room for it.
pub proof fn lemma_found_fits(file: Seq<Seq<char>>, pattern: Seq<Seq<char>>, t: Threshold)
    requires
        file.len() <= usize::MAX,
    ensures
        forall|i: int|
            0 <= i < matching::found(file, pattern, t).places.len() ==> (
            #[trigger] matching::found(file, pattern, t).places[i]) + pattern.len() <= file.len(),
{
    let trimmed = matching::trimmed_lines(file);
    let squashed = matching::squashed_lines(file);
    let n = file.len() as int + 1;
    matching::law_places_are_complete(trimmed, matching::trimmed_lines(pattern), n);
    matching::law_places_are_complete(squashed, matching::squashed_lines(pattern), n);
    let windows = matching::window_similarities(file, pattern);
    matching::law_nearest_is_best(windows, t, windows.len() as int);
    let places = matching::found(file, pattern, t).places;
    assert forall|i: int| 0 <= i < places.len() implies (#[trigger] places[i]) + pattern.len()
        <= file.len() by {
        if matching::exact_places(file, pattern).len() > 0 {
            assert(matching::holds_lines(
                trimmed,
                matching::trimmed_lines(pattern),
                places[i] as int,
            ));
        } else if matching::squashed_places(file, pattern).len() > 0 {
            assert(matching::holds_lines(
                squashed,
                matching::squashed_lines(pattern),
                places[i] as int,
            ));
        }
    }
}

/// The lines that a hunk expects in the file.
fn search_pattern(lines: &Vec<DiffLine>) -> (r: Vec<String>)
    ensures
        lists::texts(r@) == pattern_of(patch::diff_lines(lines@)),
{
    let ghost view = patch::diff_lines(lines@);
    let mut out: Vec<String> = Vec::new();
    let mut k: usize = 0;
    assert(lists::texts(out@) =~= expected(view, 0));
    while k < lines.len()
        invariant
            0 <= k <= lines@.len(),
            view == patch::diff_lines(lines@),
            lists::texts(out@) == expected(view, k as int),
        decreases lines@.len() - k,
    {
        assert(view[k as int] == lines@[k as int]@);
        match &lines[k] {
            DiffLine::Context(s) => {
                out.push(s.clone());
            },
            DiffLine::Remove(s) => {
                out.push(s.clone());
            },
            DiffLine::Add(_) => {},
        }
        k += 1;
    }
    out
}

/// The first lines of the file from `at` on.
fn context_text(file_lines: &Vec<String>, at: usize) -> (r: String)
    requires
        at <= file_lines@.len(),
    ensures
        r@ == context_at(lists::texts(file_lines@), at as int),
{
    let n: usize = file_lines.len();
    let end: usize = if 3 < n - at {
        at + 3
    } else {
        n
    };
    let ghost window = lists::texts(file_lines@).subrange(at as int, end as int);
    let mut out: Vec<Vec<char>> = Vec::new();
    let mut i: usize = at;
    while i < end
        invariant
            at <= i <= end <= n == file_lines@.len(),
            window == lists::texts(file_lines@).subrange(at as int, end as int),
            lists::rows(out@) == matching::trimmed_lines(window).take(i - at),
        decreases end - i,
    {
        assert(window[i - at] == file_lines@[i as int]@);
        out.push(trimmed_end(&chars_of(file_lines[i].as_str())));
        i += 1;
        assert(lists::rows(out@) =~= matching::trimmed_lines(window).take(i - at));
    }
    assert(lists::rows(out@) =~= matching::trimmed_lines(window));
    string_of(&join_rows(&out, "\n"))
}

/// The error of a pattern that was found more than once.
fn ambiguous_error(file_lines: &Vec<String>, places: Vec<usize>, path: &str) -> (r: PatchError)
    requires
        forall|i: int| 0 <= i < places@.len() ==> places@[i] <= file_lines@.len(),
    ensures
        r@ == ambiguous(lists::texts(file_lines@), places@, path@),
{
    let ghost file = lists::texts(file_lines@);
    let ghost all = places@.map_values(|p: usize| context_at(file, p as int));
    let mut contexts: Vec<String> = Vec::new();
    let mut i: usize = 0;
    while i < places.len()
        invariant
            0 <= i <= places@.len(),
            file == lists::texts(file_lines@),
            all == places@.map_values(|p: usize| context_at(file, p as int)),
            forall|i: int| 0 <= i < places@.len() ==> places@[i] <= file_lines@.len(),
            lists::texts(contexts@) == all.take(i as int),
        decreases places@.len() - i,
    {
        contexts.push(context_text(file_lines, places[i]));
        i += 1;
        assert(lists::texts(contexts@) =~= all.take(i as int));
    }
    assert(lists::texts(contexts@) =~= all);
    PatchError::AmbiguousContext {
        path: path.to_owned(),
        count: places.len(),
        match_positions: places,
        context_at_each: contexts,
    }
}

/// The error of a pattern that was not found.
fn not_found_error(
    file_lines: &Vec<String>,
    pattern: Vec<String>,
    hint: Option<String>,
    path: &str,
) -> (r: PatchError)
    ensures
        r@ == not_found(
            lists::texts(file_lines@),
            lists::texts(pattern@),
            lists::opt_text(hint),
            path@,
        ),
{
    let (nearest, close) = nearest_excerpt_with_matches(file_lines, &pattern);
    PatchError::ContextNotFound(
        Box::new(
            ContextNotFoundData {
                path: path.to_owned(),
                pattern,
                hint,
                total_lines: file_lines.len(),
                file_excerpt: nearest,
                closest_matches: close,
            },
        ),
    )
}

/// The place of a hunk, and how it was found.
fn locate(
    file_lines: &Vec<String>,
    hunk: &Hunk,
    pattern: Vec<String>,
    path: &str,
    t: Threshold,
) -> (r: Result<(usize, String), PatchError>)
    requires
        t.wf(),
        pattern@.len() > 0,
        lists::texts(pattern@) == pattern_of(hunk@.lines),
    ensures
        match r {
            Ok(found) => {
                &&& hunk_place(lists::texts(file_lines@), hunk@, path@, t) == Ok::<
                    int,
                    error::PatchErrorView,
                >(found.0 as int)
                &&& found.1@ == matching::found(
                    lists::texts(file_lines@),
                    lists::texts(pattern@),
                    t,
                ).how
                &&& found.0 + pattern@.len() <= file_lines@.len()
            },
            Err(e) => hunk_place(lists::texts(file_lines@), hunk@, path@, t) == Err::<
                    int,
                    error::PatchErrorView,
                >(e@),
        },
{
    let ghost file = lists::texts(file_lines@);
    let n: usize = file_lines.len();
    let m: usize = pattern.len();
    let (places, how) = find_matches_with_type(file_lines, &pattern, t);
    proof {
        lemma_found_fits(file, lists::texts(pattern@), t);
        let f = matching::found(file, lists::texts(pattern@), t);
        assert(f.places == places@);
        assert forall|i: int| 0 <= i < places@.len() implies places@[i] + m <= n by {
            assert(f.places[i] + m <= n);
        }
    }
    if places.len() == 0 {
        match &hunk.context_hint {
            Some(h) => match find_with_hint(file_lines, &pattern, h.as_str()) {
                Some(at) => Ok((at, how)),
                None => {
                    let hint = cat2("@@ hint: ", h.as_str());
                    Err(not_found_error(file_lines, pattern, Some(hint), path))
                },
            },
            None => Err(not_found_error(file_lines, pattern, None, path)),
        }
    } else if places.len() == 1 {
        Ok((places[0], how))
    } else {
        match &hunk.context_hint {
            Some(h) => match pick_by_hint(file_lines, &places, h.as_str(), m) {
                Some(at) => {
                    assert(exists|i: int| 0 <= i < places@.len() && places@[i] == at);
                    Ok((at, how))
                },
                None => Err(ambiguous_error(file_lines, places, path)),
            },
            None => Err(ambiguous_error(file_lines, places, path)),
        }
    }
}

/// Lines of a hunk expect no more of the file than the whole hunk does.
proof fn lemma_expected_grows(lines: Seq<patch::DiffLineView>, j: int, k: int)
    requires
        0 <= j <= k,
    ensures
        expected(lines, j).len() <= expected(lines, k).len(),
    decreases k,
{
    if j < k {
        lemma_expected_grows(lines, j, k - 1);
    }
}

/// The file with a hunk applied at the place `at`.
pub fn apply_hunk_at(file_lines: &Vec<String>, lines: &Vec<DiffLine>, at: usize) -> (r: Vec<String>)
    requires
        at + pattern_of(patch::diff_lines(lines@)).len() <= file_lines@.len(),
    ensures
        lists::texts(r@) == applied_at(
            lists::texts(file_lines@),
            patch::diff_lines(lines@),
            at as int,
        ),
{
    let ghost file = lists::texts(file_lines@);
    let ghost view = patch::diff_lines(lines@);
    let n: usize = file_lines.len();
    let mut out = slice_texts(file_lines, 0, at);
    assert(lists::texts(out@) =~= file.take(at as int) + rewritten(file, view, at as int, 0));
    let mut cursor: usize = at;
    let mut k: usize = 0;
    while k < lines.len()
        invariant
            0 <= k <= lines@.len(),
            n == file_lines@.len(),
            file == lists::texts(file_lines@),
            view == patch::diff_lines(lines@),
            at + pattern_of(view).len() <= n,
            cursor == at + expected(view, k as int).len(),
            cursor <= n,
            lists::texts(out@) == file.take(at as int) + rewritten(
                file,
                view,
                at as int,
                k as int,
            ),
        decreases lines@.len() - k,
    {
        let ghost before = rewritten(file, view, at as int, k as int);
        proof {
            assert(view[k as int] == lines@[k as int]@);
            lemma_expected_grows(view, k + 1, view.len() as int);
        }
        match &lines[k] {
            DiffLine::Context(_) => {
                out.push(file_lines[cursor].clone());
                cursor += 1;
                assert(lists::texts(out@) =~= file.take(at as int) + before.push(
                    file[cursor - 1],
                ));
            },
            DiffLine::Remove(_) => {
                cursor += 1;
            },
            DiffLine::Add(s) => {
                out.push(s.clone());
                assert(lists::texts(out@) =~= file.take(at as int) + before.push(s@));
            },
        }
        k += 1;
    }
    let ghost head = lists::texts(out@);
    let mut i: usize = cursor;
    assert(head =~= head + file.subrange(cursor as int, i as int));
    while i < n
        invariant
            cursor <= i <= n == file_lines@.len(),
            file == lists::texts(file_lines@),
            lists::texts(out@) == head + file.subrange(cursor as int, i as int),
        decreases n - i,
    {
        out.push(file_lines[i].clone());
        i += 1;
        assert(lists::texts(out@) =~= head + file.subrange(cursor as int, i as int));
    }
    assert(file.subrange(cursor as int, n as int) =~= file.skip(cursor as int));
    out
}

/// Applies a hunk to the lines of a file.
pub fn apply_hunk(
    file_lines: &Vec<String>,
    hunk: &Hunk,
    display_path: &str,
    t: Threshold,
) -> (r: Result<(Vec<String>, HunkResult), PatchError>)
    requires
        t.wf(),
    ensures
        match r {
            Ok(done) => hunk_outcome(lists::texts(file_lines@), hunk@, display_path@, t) == Ok::<
                (Seq<Seq<char>>, HunkResultView),
                error::PatchErrorView,
            >((lists::texts(done.0@), done.1@)),
            Err(e) => hunk_outcome(lists::texts(file_lines@), hunk@, display_path@, t) == Err::<
                    (Seq<Seq<char>>, HunkResultView),
                    error::PatchErrorView,
                >(e@),
        },
{
    let ghost file = lists::texts(file_lines@);
    let ghost view = patch::diff_lines(hunk.lines@);
    let pattern = search_pattern(&hunk.lines);
    if pattern.len() == 0 {
        let n: usize = file_lines.len();
        let mut out = slice_texts(file_lines, 0, n);
        assert(lists::texts(out@) =~= file + additions(view, 0));
        let mut k: usize = 0;
        while k < hunk.lines.len()
            invariant
                0 <= k <= hunk.lines@.len(),
                view == patch::diff_lines(hunk.lines@),
                lists::texts(out@) == file + additions(view, k as int),
            decreases hunk.lines@.len() - k,
        {
            let ghost before = additions(view, k as int);
            assert(view[k as int] == hunk.lines@[k as int]@);
            match &hunk.lines[k] {
                DiffLine::Add(s) => {
                    out.push(s.clone());
                    assert(lists::texts(out@) =~= file + before.push(s@));
                },
                _ => {},
            }
            k += 1;
        }
        return Ok((out, HunkResult { match_type: "append".to_owned(), matched_at: n }));
    }
    let n: usize = file_lines.len();
    match locate(file_lines, hunk, pattern, display_path, t) {
        Ok((at, how)) => {
            let out = apply_hunk_at(file_lines, &hunk.lines, at);
            Ok((out, HunkResult { match_type: how, matched_at: at + 1 }))
        },
        Err(e) => Err(e),
    }
}

// ---------------------------------------------------------------------------
// Several hunks
// ---------------------------------------------------------------------------

/// What the first `k` hunks make of a file, one after the other.
pub open spec fn hunks_outcome(
    file: Seq<Seq<char>>,
    hunks: Seq<patch::HunkView>,
    path: Seq<char>,
    t: Threshold,
    k: int,
) -> Result<(Seq<Seq<char>>, Seq<HunkResultView>), error::PatchErrorView>
    decreases k,
{
    if k <= 0 {
        Ok((file, Seq::empty()))
    } else {
        match hunks_outcome(file, hunks, path, t, k - 1) {
            Err(e) => Err(e),
            Ok((lines, results)) => match hunk_outcome(lines, hunks[k - 1], path, t) {
                Err(e) => Err(e),
                Ok((new_lines, result)) => Ok((new_lines, results.push(result))),
            },
        }
    }
}

/// A failure of some hunks is the failure of all.
proof fn lemma_failure_stays(
    file: Seq<Seq<char>>,
    hunks: Seq<patch::HunkView>,
    path: Seq<char>,
    t: Threshold,
    j: int,
    k: int,
)
    requires
        0 <= j <= k,
        hunks_outcome(file, hunks, path, t, j) is Err,
    ensures
        hunks_outcome(file, hunks, path, t, k) == hunks_outcome(file, hunks, path, t, j),
    decreases k,
{
    if j < k {
        lemma_failure_stays(file, hunks, path, t, j, k - 1);
    }
}

/// Applies hunks to the lines of a file, one after the other.
pub fn apply_hunks(
    file_lines: Vec<String>,
    hunks: &Vec<Hunk>,
    display_path: &str,
    t: Threshold,
) -> (r: Result<(Vec<String>, Vec<HunkResult>), PatchError>)
    requires
        t.wf(),
    ensures
        match r {
            Ok(done) => hunks_outcome(
                lists::texts(file_lines@),
                patch::hunk_views(hunks@),
                display_path@,
                t,
                hunks@.len() as int,
            ) == Ok::<(Seq<Seq<char>>, Seq<HunkResultView>), error::PatchErrorView>(
                (lists::texts(done.0@), result_views(done.1@)),
            ),
            Err(e) => hunks_outcome(
                    lists::texts(file_lines@),
                    patch::hunk_views(hunks@),
                    display_path@,
                    t,
                    hunks@.len() as int,
                ) == Err::<(Seq<Seq<char>>, Seq<HunkResultView>), error::PatchErrorView>(e@),
        },
{
    let ghost file = lists::texts(file_lines@);
    let ghost views = patch::hunk_views(hunks@);
    let mut lines = file_lines;
    let mut results: Vec<HunkResult> = Vec::new();
    let mut k: usize = 0;
    assert(result_views(results@) =~= Seq::empty());
    while k < hunks.len()
        invariant
            0 <= k <= hunks@.len(),
            t.wf(),
            file == lists::texts(file_lines@),
            views == patch::hunk_views(hunks@),
            hunks_outcome(file, views, display_path@, t, k as int) == Ok::<
                (Seq<Seq<char>>, Seq<HunkResultView>),
                error::PatchErrorView,
            >((lists::texts(lines@), result_views(results@))),
        decreases hunks@.len() - k,
    {
        assert(views[k as int] == hunks@[k as int]@);
        match apply_hunk(&lines, &hunks[k], display_path, t) {
            Ok((new_lines, result)) => {
                let ghost before = results@;
                lines = new_lines;
                results.push(result);
                assert(result_views(results@) =~= result_views(before).push(result@));
            },
            Err(e) => {
                proof {
                    lemma_failure_stays(
                        file,
                        views,
                        display_path@,
                        t,
                        k + 1,
                        hunks@.len() as int,
                    );
                }
                return Err(e);
            },
        }
        k += 1;
    }
    Ok((lines, results))
}

// ---------------------------------------------------------------------------
// The updated text, and what is said of it
// ---------------------------------------------------------------------------

/// The text of the lines. It ends with a line end if the text before the update did.
pub open spec fn text_of_lines(before: Seq<char>, lines: Seq<Seq<char>>) -> Seq<char> {
    if before.len() > 0 && before.last() == '\n' {
        text::join(lines, "\n"@) + "\n"@
    } else {
        text::join(lines, "\n"@)
    }
}

/// The text of the lines, with a line end if the text before the update had one.
pub fn joined_lines(before: &str, lines: &Vec<String>) -> (r: String)
    ensures
        r@ == text_of_lines(before@, lists::texts(lines@)),
{
    let v = chars_of(before);
    let n: usize = v.len();
    let mut out = join_texts(lines, "\n");
    if n > 0 && v[n - 1] == '\n' {
        out.append("\n");
    }
    out
}

/// What is said of the hunk `i` of several.
pub open spec fn hunk_note(results: Seq<HunkResultView>, i: int) -> Seq<char> {
    "Hunk "@ + numbers::decimal((i + 1) as nat) + ": "@ + results[i].match_type + " at line "@
        + numbers::decimal(results[i].matched_at as nat)
}

/// What is said of several hunks, one note each.
pub open spec fn hunk_notes(results: Seq<HunkResultView>) -> Seq<Seq<char>> {
    Seq::new(results.len(), |i: int| hunk_note(results, i))
}

/// How the places of the hunks were found.
pub open spec fn match_info(results: Seq<HunkResultView>) -> Option<Seq<char>> {
    if results.len() == 0 {
        None
    } else if results.len() == 1 {
        Some(
            results[0].match_type + " match at line "@ + numbers::decimal(
                results[0].matched_at as nat,
            ),
        )
    } else {
        Some(text::join(hunk_notes(results), "; "@))
    }
}

/// How the places of the hunks were found.
pub fn build_match_info(hunk_results: &Vec<HunkResult>) -> (r: Option<String>)
    ensures
        lists::opt_text(r) == match_info(result_views(hunk_results@)),
{
    let ghost views = result_views(hunk_results@);
    let n: usize = hunk_results.len();
    if n == 0 {
        return None;
    }
    if n == 1 {
        let one = &hunk_results[0];
        assert(views[0] == hunk_results@[0]@);
        return Some(
            cat3(one.match_type.as_str(), " match at line ", decimal_of(one.matched_at).as_str()),
        );
    }
    let mut notes: Vec<String> = Vec::new();
    let mut i: usize = 0;
    while i < n
        invariant
            0 <= i <= n == hunk_results@.len(),
            views == result_views(hunk_results@),
            lists::texts(notes@) == hunk_notes(views).take(i as int),
        decreases n - i,
    {
        let one = &hunk_results[i];
        let mut note = cat3("Hunk ", decimal_of(i + 1).as_str(), ": ");
        note.append(one.match_type.as_str());
        note.append(" at line ");
        note.append(decimal_of(one.matched_at).as_str());
        assert(note@ == hunk_note(views, i as int));
        notes.push(note);
        i += 1;
        assert(lists::texts(notes@) =~= hunk_notes(views).take(i as int));
    }
    assert(hunk_notes(views).take(n as int) =~= hunk_notes(views));
    Some(join_texts(&notes, "; "))
}

// ---------------------------------------------------------------------------
// Laws
// ---------------------------------------------------------------------------

/// The place of a hunk has room for the lines that the hunk expects.
pub proof fn lemma_hunk_place_fits(
    file: Seq<Seq<char>>,
    hunk: patch::HunkView,
    path: Seq<char>,
    t: Threshold,
)
    requires
        file.len() <= usize::MAX,
    ensures
        hunk_place(file, hunk, path, t) matches Ok(at) ==> 0 <= at && at + pattern_of(
            hunk.lines,
        ).len() <= file.len(),
{
    let pattern = pattern_of(hunk.lines);
    let places = matching::found(file, pattern, t).places;
    lemma_found_fits(file, pattern, t);
    if let Some(h) = hunk.context_hint {
        if places.len() == 0 {
            hints::lemma_place_by_hint_fits(file, pattern, h);
        } else {
            hints::law_hint_picks_a_match(file, h, places, pattern.len() as int);
        }
    }
}

/// The lines that a hunk leaves at its place: one for each line that stays or comes in.
pub proof fn lemma_rewritten_len(
    file: Seq<Seq<char>>,
    lines: Seq<patch::DiffLineView>,
    at: int,
    k: int,
)
    ensures
        rewritten(file, lines, at, k).len() - expected(lines, k).len() == additions(
            lines,
            k,
        ).len() - removals(lines, k),
    decreases k,
{
    if k > 0 {
        lemma_rewritten_len(file, lines, at, k - 1);
    }
}

/// How many of the first `k` lines of a hunk go.
pub open spec fn removals(lines: Seq<patch::DiffLineView>, k: int) -> int
    decreases k,
{
    if k <= 0 {
        0
    } else {
        removals(lines, k - 1) + (if lines[k - 1] is Remove {
            1int
        } else {
            0
        })
    }
}

/// A hunk changes nothing but the lines at its place: what stands before and after them stays,
/// and the file grows by the lines that come in less the lines that go.
pub proof fn law_hunk_keeps_the_rest(
    file: Seq<Seq<char>>,
    hunk: patch::HunkView,
    path: Seq<char>,
    t: Threshold,
)
    requires
        file.len() <= usize::MAX,
        pattern_of(hunk.lines).len() > 0,
        hunk_outcome(file, hunk, path, t) is Ok,
    ensures
        ({
            let at = hunk_place(file, hunk, path, t)->Ok_0;
            let after = at + pattern_of(hunk.lines).len();
            let new = hunk_outcome(file, hunk, path, t)->Ok_0.0;
            let n = hunk.lines.len() as int;
            &&& 0 <= at <= after <= file.len()
            &&& at <= new.len()
            &&& new.take(at) == file.take(at)
            &&& file.len() - after <= new.len()
            &&& new.skip(new.len() - (file.len() - after)) == file.skip(after)
            &&& new.len() == file.len() + additions(hunk.lines, n).len() - removals(hunk.lines, n)
        }),
{
    lemma_hunk_place_fits(file, hunk, path, t);
    let at = hunk_place(file, hunk, path, t)->Ok_0;
    let n = hunk.lines.len() as int;
    let after = at + pattern_of(hunk.lines).len();
    let new = hunk_outcome(file, hunk, path, t)->Ok_0.0;
    lemma_rewritten_len(file, hunk.lines, at, n);
    assert(new == applied_at(file, hunk.lines, at));
    assert(new.take(at) =~= file.take(at));
    assert(new.skip(new.len() - (file.len() - after)) =~= file.skip(after));
}

/// A hunk that only has lines that stay leaves the file as it is.
pub proof fn law_context_alone_changes_nothing(
    file: Seq<Seq<char>>,
    hunk: patch::HunkView,
    path: Seq<char>,
    t: Threshold,
)
    requires
        file.len() <= usize::MAX,
        forall|i: int| 0 <= i < hunk.lines.len() ==> hunk.lines[i] is Context,
    ensures
        hunk_outcome(file, hunk, path, t) matches Ok(done) ==> done.0 == file,
{
    lemma_hunk_place_fits(file, hunk, path, t);
    let n = hunk.lines.len() as int;
    if pattern_of(hunk.lines).len() == 0 {
        lemma_context_alone(file, hunk.lines, 0, n);
        assert(file + additions(hunk.lines, n) =~= file);
    } else if let Ok(at) = hunk_place(file, hunk, path, t) {
        lemma_context_alone(file, hunk.lines, at, n);
        assert(applied_at(file, hunk.lines, at) =~= file);
    }
}

/// Lines that stay are written as they are.
proof fn lemma_context_alone(
    file: Seq<Seq<char>>,
    lines: Seq<patch::DiffLineView>,
    at: int,
    k: int,
)
    requires
        0 <= at,
        0 <= k <= lines.len(),
        forall|i: int| 0 <= i < lines.len() ==> lines[i] is Context,
    ensures
        expected(lines, k).len() == k,
        additions(lines, k).len() == 0,
        at + k <= file.len() ==> rewritten(file, lines, at, k) == file.subrange(at, at + k),
    decreases k,
{
    if k > 0 {
        lemma_context_alone(file, lines, at, k - 1);
        if at + k <= file.len() {
            assert(file.subrange(at, at + k) =~= file.subrange(at, at + k - 1).push(
                file[at + k - 1],
            ));
        }
    } else if at <= file.len() {
        assert(file.subrange(at, at) =~= Seq::empty());
    }
}

/// The lines of a hunk the other way round: what came in goes, and what went comes in.
pub open spec fn reversed(lines: Seq<patch::DiffLineView>) -> Seq<patch::DiffLineView> {
    lines.map_values(
        |l: patch::DiffLineView|
            match l {
                patch::DiffLineView::Context(s) => patch::DiffLineView::Context(s),
                patch::DiffLineView::Add(s) => patch::DiffLineView::Remove(s),
                patch::DiffLineView::Remove(s) => patch::DiffLineView::Add(s),
            },
    )
}

/// A hunk the other way round undoes the hunk, at the same line. The hunk says the lines at its
/// place as the file has them; what it leaves there is to be found at one place only.
pub proof fn law_reversed_hunk_undoes(
    file: Seq<Seq<char>>,
    hunk: patch::HunkView,
    path: Seq<char>,
    t: Threshold,
    back_hint: Option<Seq<char>>,
    back_path: Seq<char>,
    back_t: Threshold,
)
    requires
        file.len() <= usize::MAX,
        pattern_of(hunk.lines).len() > 0,
        pattern_of(reversed(hunk.lines)).len() > 0,
        hunk_outcome(file, hunk, path, t) matches Ok((new, r)) && {
            &&& new.len() <= usize::MAX
            &&& matching::holds_lines(file, pattern_of(hunk.lines), r.matched_at - 1)
            &&& matching::exact_places(new, pattern_of(reversed(hunk.lines))).len() == 1
        },
    ensures
        ({
            let (new, r) = hunk_outcome(file, hunk, path, t)->Ok_0;
            let back = patch::HunkView {
                context_hint: back_hint,
                lines: reversed(hunk.lines),
            };
            hunk_outcome(new, back, back_path, back_t) == Ok::<
                (Seq<Seq<char>>, HunkResultView),
                error::PatchErrorView,
            >((file, HunkResultView { match_type: "exact"@, matched_at: r.matched_at }))
        }),
{
    lemma_hunk_place_fits(file, hunk, path, t);
    let at = hunk_place(file, hunk, path, t)->Ok_0;
    let n = hunk.lines.len() as int;
    let (new, r) = hunk_outcome(file, hunk, path, t)->Ok_0;
    let back = reversed(hunk.lines);
    let pattern = pattern_of(hunk.lines);
    let wanted = pattern_of(back);
    assert(r.matched_at == at + 1);
    lemma_rewritten_reversed(file, hunk.lines, at, n);
    assert(new == file.take(at) + wanted + file.skip(at + pattern.len()));
    assert(new.subrange(at, at + wanted.len()) =~= wanted);
    lemma_rewritten_reversed(new, back, at, n);
    assert(reversed(back) =~= hunk.lines);
    assert(applied_at(new, back, at) =~= file) by {
        assert(new.take(at) =~= file.take(at));
        assert(new.skip(at + wanted.len()) =~= file.skip(at + pattern.len()));
        assert(rewritten(new, back, at, n) == file.subrange(at, at + pattern.len()));
        assert(back.len() == n);
        assert(applied_at(new, back, at) == file.take(at) + file.subrange(
            at,
            at + pattern.len(),
        ) + file.skip(at + pattern.len()));
    }
    let lines = matching::trimmed_lines(new);
    let sought = matching::trimmed_lines(wanted);
    assert(lines.subrange(at, at + sought.len()) =~= sought) by {
        assert forall|i: int| 0 <= i < sought.len() implies lines[at + i] == sought[i] by {
            assert(new[at + i] == wanted[i]);
        }
    }
    assert(matching::holds_lines(lines, sought, at));
    matching::law_places_are_complete(lines, sought, lines.len() as int + 1);
    let places = matching::exact_places(new, wanted);
    assert(places.contains(at as usize));
    assert(places[0] == at);
}

/// Lines of a hunk that says the lines at its place as the file has them leave what the hunk the
/// other way round expects.
proof fn lemma_rewritten_reversed(
    file: Seq<Seq<char>>,
    lines: Seq<patch::DiffLineView>,
    at: int,
    k: int,
)
    requires
        0 <= k <= lines.len(),
        matching::holds_lines(file, pattern_of(lines), at),
    ensures
        rewritten(file, lines, at, k) == expected(reversed(lines), k),
    decreases k,
{
    if k > 0 {
        lemma_rewritten_reversed(file, lines, at, k - 1);
        let e = expected(lines, k - 1).len() as int;
        if let patch::DiffLineView::Context(s) = lines[k - 1] {
            lemma_expected_prefix(lines, k, lines.len() as int);
            assert(expected(lines, k)[e] == s);
            assert(pattern_of(lines)[e] == s);
            assert(file.subrange(at, at + pattern_of(lines).len())[e] == file[at + e]);
        }
    }
}

/// What the first lines of a hunk expect is what the hunk expects first.
proof fn lemma_expected_prefix(lines: Seq<patch::DiffLineView>, j: int, k: int)
    requires
        0 <= j <= k <= lines.len(),
    ensures
        expected(lines, j).len() <= expected(lines, k).len(),
        expected(lines, k).take(expected(lines, j).len() as int) == expected(lines, j),
        forall|i: int|
            0 <= i < expected(lines, j).len() ==> #[trigger] expected(lines, k)[i] == expected(
                lines,
                j,
            )[i],
    decreases k - j,
{
    if j < k {
        lemma_expected_prefix(lines, j, k - 1);
    }
    assert(expected(lines, k).take(expected(lines, j).len() as int) =~= expected(lines, j));
}

/// An update keeps the line end at the end of a text that has lines, or keeps it away.
pub proof fn law_last_line_end_stays(before: Seq<char>, lines: Seq<Seq<char>>)
    requires
        forall|i: int| 0 <= i < lines.len() ==> !(#[trigger] lines[i]).contains('\n'),
        lines.len() > 0,
        lines.last().len() > 0,
    ensures
        (before.len() > 0 && before.last() == '\n') <==> (text_of_lines(before, lines).len() > 0
            && text_of_lines(before, lines).last() == '\n'),
{
    let body = text::join(lines, "\n"@);
    reveal_strlit("\n");
    if lines.len() == 1 {
        assert(body == lines[0]);
    } else {
        assert(body == text::join(lines.drop_last(), "\n"@) + "\n"@ + lines.last());
    }
    assert(body.last() == lines.last().last());
    assert(lines.last().contains(lines.last().last()));
    assert((body + "\n"@).last() == '\n');
}

} // verus!
