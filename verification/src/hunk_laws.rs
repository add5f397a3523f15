//! What holds of hunks, said of their lines and of the lines of the file alone.

use vstd::prelude::*;

use crate::error;
use crate::hunks;
use crate::matching;
use crate::patch;
use crate::similarity;
use crate::similarity::Threshold;
use crate::text;

verus! {

// ---------------------------------------------------------------------------
// What a hunk makes of the lines at its place
// ---------------------------------------------------------------------------

/// How many of the first `k` lines of a hunk are lines of the file before it is applied.
pub open spec fn old_count(lines: Seq<patch::DiffLineView>, k: int) -> int
    decreases k,
{
    if k <= 0 {
        0
    } else {
        old_count(lines, k - 1) + (if lines[k - 1] is Add {
            0int
        } else {
            1
        })
    }
}

/// How many of the first `k` lines of a hunk are lines of the file after it is applied.
pub open spec fn new_count(lines: Seq<patch::DiffLineView>, k: int) -> int
    decreases k,
{
    if k <= 0 {
        0
    } else {
        new_count(lines, k - 1) + (if lines[k - 1] is Remove {
            0int
        } else {
            1
        })
    }
}

/// Counts of fewer lines are no greater.
proof fn lemma_counts(lines: Seq<patch::DiffLineView>, j: int, k: int)
    requires
        0 <= j <= k,
    ensures
        0 <= old_count(lines, j) <= old_count(lines, k) <= old_count(lines, j) + (k - j),
        0 <= new_count(lines, j) <= new_count(lines, k) <= new_count(lines, j) + (k - j),
    decreases k,
{
    if j < k {
        lemma_counts(lines, j, k - 1);
    } else if j > 0 {
        lemma_counts(lines, j - 1, j - 1);
    }
}

/// What the lines of a hunk expect, counted.
proof fn lemma_expected_count(lines: Seq<patch::DiffLineView>, k: int)
    ensures
        hunks::expected(lines, k).len() == old_count(lines, k),
    decreases k,
{
    if k > 0 {
        lemma_expected_count(lines, k - 1);
    }
}

/// The text of a line of a hunk.
pub open spec fn line_text(line: patch::DiffLineView) -> Seq<char> {
    match line {
        patch::DiffLineView::Context(s) => s,
        patch::DiffLineView::Remove(s) => s,
        patch::DiffLineView::Add(s) => s,
    }
}

/// Where a line of a hunk is among those that it expects.
proof fn lemma_expected_at(lines: Seq<patch::DiffLineView>, j: int, k: int)
    requires
        0 <= j < k,
        !(lines[j] is Add),
    ensures
        0 <= old_count(lines, j) < hunks::expected(lines, k).len(),
        hunks::expected(lines, k)[old_count(lines, j)] == line_text(lines[j]),
    decreases k,
{
    lemma_expected_count(lines, k);
    lemma_expected_count(lines, k - 1);
    lemma_counts(lines, 0, j);
    if j < k - 1 {
        lemma_expected_at(lines, j, k - 1);
    } else {
        lemma_expected_count(lines, j);
    }
}

/// A line that is expected is one of the lines of the hunk.
proof fn lemma_expected_from(lines: Seq<patch::DiffLineView>, i: int, k: int) -> (j: int)
    requires
        0 <= i < hunks::expected(lines, k).len(),
    ensures
        0 <= j < k,
        !(lines[j] is Add),
        old_count(lines, j) == i,
        hunks::expected(lines, k)[i] == line_text(lines[j]),
    decreases k,
{
    if k <= 0 {
        0
    } else {
        lemma_expected_count(lines, k - 1);
        if i < hunks::expected(lines, k - 1).len() {
            lemma_expected_from(lines, i, k - 1)
        } else {
            k - 1
        }
    }
}

/// What the lines of a hunk leave, counted and line by line.
proof fn lemma_rewritten(
    file: Seq<Seq<char>>,
    lines: Seq<patch::DiffLineView>,
    at: int,
    k: int,
)
    ensures
        hunks::rewritten(file, lines, at, k).len() == new_count(lines, k),
        forall|j: int|
            0 <= j < k ==> match #[trigger] lines[j] {
                patch::DiffLineView::Context(_) => hunks::rewritten(file, lines, at, k)[new_count(
                    lines,
                    j,
                )] == file[at + old_count(lines, j)],
                patch::DiffLineView::Add(s) => hunks::rewritten(file, lines, at, k)[new_count(
                    lines,
                    j,
                )] == s,
                patch::DiffLineView::Remove(_) => true,
            },
    decreases k,
{
    if k > 0 {
        lemma_rewritten(file, lines, at, k - 1);
        lemma_expected_count(lines, k - 1);
        assert forall|j: int| 0 <= j < k implies match #[trigger] lines[j] {
            patch::DiffLineView::Context(_) => hunks::rewritten(file, lines, at, k)[new_count(
                lines,
                j,
            )] == file[at + old_count(lines, j)],
            patch::DiffLineView::Add(s) => hunks::rewritten(file, lines, at, k)[new_count(
                lines,
                j,
            )] == s,
            patch::DiffLineView::Remove(_) => true,
        } by {
            if j < k - 1 {
                lemma_counts(lines, 0, j);
                lemma_counts(lines, j + 1, k - 1);
            }
        }
    }
}

/// Where a hunk is applied, its lines that stay are the file's own lines, in their order, its lines
/// that come in are there as the hunk has them, its lines that go are gone, and nothing else in the
/// file changes. So it is however the place was found.
pub proof fn law_hunk_changes_its_lines_alone(
    file: Seq<Seq<char>>,
    hunk: patch::HunkView,
    path: Seq<char>,
    t: Threshold,
)
    requires
        file.len() <= usize::MAX,
        old_count(hunk.lines, hunk.lines.len() as int) > 0,
        hunks::hunk_outcome(file, hunk, path, t) is Ok,
    ensures
        ({
            let (new, r) = hunks::hunk_outcome(file, hunk, path, t)->Ok_0;
            let at = r.matched_at - 1;
            let n = hunk.lines.len() as int;
            let (was, is) = (old_count(hunk.lines, n), new_count(hunk.lines, n));
            &&& 0 <= at && at + was <= file.len()
            &&& new.len() == file.len() - was + is
            &&& forall|i: int| 0 <= i < at ==> new[i] == file[i]
            &&& forall|i: int| at + is <= i < new.len() ==> new[i] == file[i - is + was]
            &&& forall|k: int|
                0 <= k < n ==> match #[trigger] hunk.lines[k] {
                    patch::DiffLineView::Context(_) => new[at + new_count(hunk.lines, k)]
                        == file[at + old_count(hunk.lines, k)],
                    patch::DiffLineView::Add(s) => new[at + new_count(hunk.lines, k)] == s,
                    patch::DiffLineView::Remove(_) => true,
                }
        }),
{
    let n = hunk.lines.len() as int;
    lemma_expected_count(hunk.lines, n);
    hunks::lemma_hunk_place_fits(file, hunk, path, t);
    let at = hunks::hunk_place(file, hunk, path, t)->Ok_0;
    let (new, r) = hunks::hunk_outcome(file, hunk, path, t)->Ok_0;
    assert(r.matched_at == at + 1);
    lemma_rewritten(file, hunk.lines, at, n);
    let block = hunks::rewritten(file, hunk.lines, at, n);
    assert(new == file.take(at) + block + file.skip(at + old_count(hunk.lines, n)));
    assert forall|k: int| 0 <= k < n implies match #[trigger] hunk.lines[k] {
        patch::DiffLineView::Context(_) => new[at + new_count(hunk.lines, k)] == file[at
            + old_count(hunk.lines, k)],
        patch::DiffLineView::Add(s) => new[at + new_count(hunk.lines, k)] == s,
        patch::DiffLineView::Remove(_) => true,
    } by {
        lemma_counts(hunk.lines, 0, k);
        lemma_counts(hunk.lines, k + 1, n);
        assert(new_count(hunk.lines, k + 1) == new_count(hunk.lines, k) + (
        if hunk.lines[k] is Remove {
            0int
        } else {
            1
        }));
        if !(hunk.lines[k] is Remove) {
            assert(new[at + new_count(hunk.lines, k)] == block[new_count(hunk.lines, k)]);
        }
    }
}

/// A hunk of lines that come in alone puts them behind the last line of the file, in their order.
pub proof fn law_additions_go_to_the_end(
    file: Seq<Seq<char>>,
    hunk: patch::HunkView,
    path: Seq<char>,
    t: Threshold,
)
    requires
        file.len() <= usize::MAX,
        forall|k: int| 0 <= k < hunk.lines.len() ==> #[trigger] hunk.lines[k] is Add,
    ensures
        hunks::hunk_outcome(file, hunk, path, t) matches Ok((new, r)) && {
            &&& new.len() == file.len() + hunk.lines.len()
            &&& forall|i: int| 0 <= i < file.len() ==> new[i] == file[i]
            &&& forall|k: int|
                0 <= k < hunk.lines.len() ==> new[file.len() + k] == line_text(
                    #[trigger] hunk.lines[k],
                )
            &&& r.match_type == "append"@
            &&& r.matched_at == file.len()
        },
{
    let n = hunk.lines.len() as int;
    lemma_all_added(hunk.lines, n);
    lemma_expected_count(hunk.lines, n);
    let (new, r) = hunks::hunk_outcome(file, hunk, path, t)->Ok_0;
    assert(new == file + hunks::additions(hunk.lines, n));
    assert forall|k: int| 0 <= k < n implies new[file.len() + k] == line_text(
        #[trigger] hunk.lines[k],
    ) by {
        assert(hunks::additions(hunk.lines, n)[k] == line_text(hunk.lines[k]));
    }
}

/// Lines that all come in.
proof fn lemma_all_added(lines: Seq<patch::DiffLineView>, k: int)
    requires
        0 <= k <= lines.len(),
        forall|j: int| 0 <= j < lines.len() ==> #[trigger] lines[j] is Add,
    ensures
        old_count(lines, k) == 0,
        hunks::additions(lines, k).len() == k,
        forall|j: int|
            0 <= j < k ==> #[trigger] hunks::additions(lines, k)[j] == line_text(lines[j]),
    decreases k,
{
    if k > 0 {
        lemma_all_added(lines, k - 1);
        assert(lines[k - 1] is Add);
    }
}

// ---------------------------------------------------------------------------
// Where a hunk is applied
// ---------------------------------------------------------------------------

/// Whether the lines that a hunk expects stand at `at`, but for white space at their ends.
pub open spec fn stands_at(file: Seq<Seq<char>>, lines: Seq<patch::DiffLineView>, at: int) -> bool {
    &&& 0 <= at
    &&& at + old_count(lines, lines.len() as int) <= file.len()
    &&& forall|k: int|
        0 <= k < lines.len() && !(#[trigger] lines[k] is Add) ==> text::trim_end(
            file[at + old_count(lines, k)],
        ) == text::trim_end(line_text(lines[k]))
}

/// Whether lines with the words of those that a hunk expects stand at `at`.
pub open spec fn stands_loosely_at(
    file: Seq<Seq<char>>,
    lines: Seq<patch::DiffLineView>,
    at: int,
) -> bool {
    &&& 0 <= at
    &&& at + old_count(lines, lines.len() as int) <= file.len()
    &&& forall|k: int|
        0 <= k < lines.len() && !(#[trigger] lines[k] is Add) ==> text::words(
            file[at + old_count(lines, k)],
        ) == text::words(line_text(lines[k]))
}

/// Exact places, said of the lines of the hunk.
proof fn lemma_stands(file: Seq<Seq<char>>, lines: Seq<patch::DiffLineView>, at: int)
    ensures
        stands_at(file, lines, at) == matching::holds_lines(
            matching::trimmed_lines(file),
            matching::trimmed_lines(hunks::pattern_of(lines)),
            at,
        ),
{
    let n = lines.len() as int;
    let pattern = hunks::pattern_of(lines);
    let (f, p) = (matching::trimmed_lines(file), matching::trimmed_lines(pattern));
    lemma_expected_count(lines, n);
    if stands_at(file, lines, at) {
        assert forall|i: int| 0 <= i < p.len() implies f[at + i] == p[i] by {
            let j = lemma_expected_from(lines, i, n);
            assert(!(lines[j] is Add));
        }
        assert(f.subrange(at, at + p.len()) =~= p);
    }
    if matching::holds_lines(f, p, at) {
        assert forall|k: int| 0 <= k < n && !(#[trigger] lines[k] is Add) implies text::trim_end(
            file[at + old_count(lines, k)],
        ) == text::trim_end(line_text(lines[k])) by {
            lemma_expected_at(lines, k, n);
            let i = old_count(lines, k);
            assert(f.subrange(at, at + p.len())[i] == p[i]);
        }
    }
}

/// Words hold no white space, and are not empty.
pub proof fn lemma_words_are_words(s: Seq<char>)
    ensures
        forall|i: int|
            0 <= i < text::words(s).len() ==> (#[trigger] text::words(s)[i]).len() > 0
                && forall|j: int|
                    0 <= j < text::words(s)[i].len() ==> !text::is_space(
                        #[trigger] text::words(s)[i][j],
                    ),
    decreases s.len(),
{
    let t = text::trim_start(s);
    text::lemma_trim_start(s);
    if t.len() > 0 {
        text::lemma_word_len(t);
        lemma_word(t);
        let n = text::word_len(t) as int;
        let rest = text::words(t.skip(n));
        lemma_words_are_words(t.skip(n));
        let all = text::words(s);
        assert(all == seq![t.take(n)] + rest);
        assert forall|i: int| 0 <= i < all.len() implies (#[trigger] all[i]).len() > 0
            && forall|j: int| 0 <= j < all[i].len() ==> !text::is_space(#[trigger] all[i][j]) by {
            if i > 0 {
                assert(all[i] == rest[i - 1]);
            }
        }
    }
}

/// A word holds no white space, and ends before some.
pub proof fn lemma_word(t: Seq<char>)
    ensures
        text::word_len(t) <= t.len(),
        forall|j: int| 0 <= j < text::word_len(t) ==> !text::is_space(#[trigger] t[j]),
        text::word_len(t) < t.len() ==> text::is_space(t[text::word_len(t) as int]),
    decreases t.len(),
{
    if t.len() > 0 && !text::is_space(t[0]) {
        lemma_word(t.skip(1));
        assert forall|j: int| 0 <= j < text::word_len(t) implies !text::is_space(
            #[trigger] t[j],
        ) by {
            if j > 0 {
                assert(t.skip(1)[j - 1] == t[j]);
            }
        }
    }
}

/// Lines are the same but for the amount of white space where their words are.
proof fn lemma_squash(a: Seq<char>, b: Seq<char>)
    ensures
        (matching::squash(a) == matching::squash(b)) == (text::words(a) == text::words(b)),
{
    lemma_squash_of(a);
    lemma_squash_of(b);
}

/// The words of a line can be read off it with its white space made uniform.
proof fn lemma_squash_of(a: Seq<char>)
    ensures
        text::words(a).len() > 0 ==> text::split(matching::squash(a), ' ') == text::words(a),
        text::words(a).len() > 0 ==> matching::squash(a).len() > 0,
        text::words(a).len() == 0 ==> matching::squash(a).len() == 0,
{
    reveal_strlit(" ");
    assert(" "@ =~= seq![' ']);
    let w = text::words(a);
    lemma_words_are_words(a);
    if w.len() > 0 {
        assert forall|i: int| 0 <= i < w.len() implies !(#[trigger] w[i]).contains(' ') by {
            assert(text::is_space(' '));
            if w[i].contains(' ') {
                let j = choose|j: int| 0 <= j < w[i].len() && w[i][j] == ' ';
                assert(!text::is_space(w[i][j]));
            }
        }
        text::law_split_of_join(w, ' ');
        if matching::squash(a).len() == 0 {
            assert(text::split(matching::squash(a), ' ') =~= seq![Seq::<char>::empty()]) by {
                text::lemma_first_index(matching::squash(a), ' ', 0);
            }
            assert(w[0].len() == 0);
        }
    }
}

/// Places up to white space, said of the lines of the hunk.
proof fn lemma_stands_loosely(file: Seq<Seq<char>>, lines: Seq<patch::DiffLineView>, at: int)
    ensures
        stands_loosely_at(file, lines, at) == matching::holds_lines(
            matching::squashed_lines(file),
            matching::squashed_lines(hunks::pattern_of(lines)),
            at,
        ),
{
    let n = lines.len() as int;
    let pattern = hunks::pattern_of(lines);
    let (f, p) = (matching::squashed_lines(file), matching::squashed_lines(pattern));
    lemma_expected_count(lines, n);
    if stands_loosely_at(file, lines, at) {
        assert forall|i: int| 0 <= i < p.len() implies f[at + i] == p[i] by {
            let j = lemma_expected_from(lines, i, n);
            assert(!(lines[j] is Add));
            lemma_squash(file[at + i], pattern[i]);
        }
        assert(f.subrange(at, at + p.len()) =~= p);
    }
    if matching::holds_lines(f, p, at) {
        assert forall|k: int| 0 <= k < n && !(#[trigger] lines[k] is Add) implies text::words(
            file[at + old_count(lines, k)],
        ) == text::words(line_text(lines[k])) by {
            lemma_expected_at(lines, k, n);
            let i = old_count(lines, k);
            assert(f.subrange(at, at + p.len())[i] == p[i]);
            lemma_squash(file[at + i], pattern[i]);
        }
    }
}

/// Whether a list holds, in ascending order, the places that something holds of, and no others.
pub open spec fn lists_places(places: Seq<usize>, holds: spec_fn(int) -> bool) -> bool {
    &&& forall|i: int| 0 <= i < places.len() ==> holds(#[trigger] places[i] as int)
    &&& forall|at: int|
        #![trigger holds(at)]
        0 <= at <= usize::MAX && holds(at) ==> exists|i: int|
            0 <= i < places.len() && places[i] == at
    &&& forall|i: int, j: int| 0 <= i < j < places.len() ==> places[i] < places[j]
}

/// The places of a hunk, exact and up to white space.
proof fn lemma_places(file: Seq<Seq<char>>, lines: Seq<patch::DiffLineView>)
    requires
        file.len() <= usize::MAX,
        old_count(lines, lines.len() as int) > 0,
    ensures
        lists_places(
            matching::exact_places(file, hunks::pattern_of(lines)),
            |at: int| stands_at(file, lines, at),
        ),
        lists_places(
            matching::squashed_places(file, hunks::pattern_of(lines)),
            |at: int| stands_loosely_at(file, lines, at),
        ),
{
    let pattern = hunks::pattern_of(lines);
    lemma_expected_count(lines, lines.len() as int);
    let n = file.len() as int + 1;
    let (f, p) = (matching::trimmed_lines(file), matching::trimmed_lines(pattern));
    matching::law_places_are_complete(f, p, n);
    let places = matching::exact_places(file, pattern);
    let holds = |at: int| stands_at(file, lines, at);
    assert forall|i: int| 0 <= i < places.len() implies holds(#[trigger] places[i] as int) by {
        lemma_stands(file, lines, places[i] as int);
    }
    assert forall|at: int|
        #![trigger holds(at)]
        0 <= at <= usize::MAX && holds(at) implies exists|i: int|
        0 <= i < places.len() && places[i] == at by {
        lemma_stands(file, lines, at);
        assert(matching::holds_lines(f, p, at));
        assert(places.contains(at as usize));
        let i = choose|i: int| 0 <= i < places.len() && places[i] == at as usize;
        assert(places[i] == at);
    }
    let (g, q) = (matching::squashed_lines(file), matching::squashed_lines(pattern));
    matching::law_places_are_complete(g, q, n);
    let loose = matching::squashed_places(file, pattern);
    let holds_loosely = |at: int| stands_loosely_at(file, lines, at);
    assert forall|i: int| 0 <= i < loose.len() implies holds_loosely(
        #[trigger] loose[i] as int,
    ) by {
        lemma_stands_loosely(file, lines, loose[i] as int);
    }
    assert forall|at: int|
        #![trigger holds_loosely(at)]
        0 <= at <= usize::MAX && holds_loosely(at) implies exists|i: int|
        0 <= i < loose.len() && loose[i] == at by {
        lemma_stands_loosely(file, lines, at);
        assert(matching::holds_lines(g, q, at));
        assert(loose.contains(at as usize));
        let i = choose|i: int| 0 <= i < loose.len() && loose[i] == at as usize;
        assert(loose[i] == at);
    }
}

/// A list of ascending places is no longer than what they are places in.
proof fn lemma_ascending(places: Seq<usize>, n: int)
    requires
        forall|i: int, j: int| 0 <= i < j < places.len() ==> places[i] < places[j],
        forall|i: int| 0 <= i < places.len() ==> #[trigger] places[i] < n,
    ensures
        places.len() > 0 ==> places.last() >= places.len() - 1,
        places.len() > 0 ==> places.len() <= n,
    decreases places.len(),
{
    if places.len() > 1 {
        let less = places.drop_last();
        assert forall|i: int, j: int| 0 <= i < j < less.len() implies less[i] < less[j] by {
            assert(places[i] < places[j]);
        }
        assert forall|i: int| 0 <= i < less.len() implies #[trigger] less[i] < n by {
            assert(places[i] < n);
        }
        lemma_ascending(less, n);
        assert(places[places.len() - 2] < places[places.len() - 1]);
    }
    if places.len() > 0 {
        assert(places[places.len() - 1] < n);
    }
}

/// A hunk whose lines stand somewhere in the file, but for white space at their ends, is applied at
/// such a place and nowhere else: at the only one there is, or at one of several where its hint
/// picks one. Without a hint, several places are reported, all of them and in order.
pub proof fn law_exact_places_come_first(
    file: Seq<Seq<char>>,
    hunk: patch::HunkView,
    path: Seq<char>,
    t: Threshold,
    at: int,
)
    requires
        file.len() <= usize::MAX,
        old_count(hunk.lines, hunk.lines.len() as int) > 0,
        stands_at(file, hunk.lines, at),
    ensures
        match hunks::hunk_outcome(file, hunk, path, t) {
            Ok((_, r)) => r.match_type == "exact"@ && stands_at(
                file,
                hunk.lines,
                r.matched_at - 1,
            ),
            Err(e) => e matches error::PatchErrorView::AmbiguousContext {
                path: where_,
                count,
                match_positions,
                ..
            } && where_ == path && count == match_positions.len() && count >= 2 && lists_places(
                match_positions,
                |p: int| stands_at(file, hunk.lines, p),
            ),
        },
        (forall|p: int| stands_at(file, hunk.lines, p) ==> p == at) ==> (hunks::hunk_outcome(
            file,
            hunk,
            path,
            t,
        ) matches Ok((_, r)) && r.matched_at == at + 1),
        hunk.context_hint is None && (exists|p: int|
            p != at && #[trigger] stands_at(file, hunk.lines, p)) ==> hunks::hunk_outcome(
            file,
            hunk,
            path,
            t,
        ) is Err,
{
    lemma_expected_count(hunk.lines, hunk.lines.len() as int);
    lemma_places(file, hunk.lines);
    hunks::lemma_hunk_place_fits(file, hunk, path, t);
    let pattern = hunks::pattern_of(hunk.lines);
    let places = matching::exact_places(file, pattern);
    let holds = |p: int| stands_at(file, hunk.lines, p);
    assert(holds(at));
    let i = choose|i: int| 0 <= i < places.len() && places[i] == at;
    assert forall|j: int| 0 <= j < places.len() implies #[trigger] places[j] < file.len() by {
        assert(holds(places[j] as int));
    }
    lemma_ascending(places, file.len() as int);
    lemma_place_is_listed(file, hunk, path, t);
    if forall|p: int| stands_at(file, hunk.lines, p) ==> p == at {
        assert forall|j: int| 0 <= j < places.len() implies #[trigger] places[j] == at by {
            assert(holds(places[j] as int));
        }
        if places.len() > 1 {
            assert(places[0] < places[1]);
        }
    }
    if exists|p: int| p != at && #[trigger] stands_at(file, hunk.lines, p) {
        let p = choose|p: int| p != at && #[trigger] stands_at(file, hunk.lines, p);
        assert(holds(p));
        let j = choose|j: int| 0 <= j < places.len() && places[j] == p;
        assert(places.len() >= 2);
    }
}

/// The place of a hunk that is found is one of the places found.
proof fn lemma_place_is_listed(
    file: Seq<Seq<char>>,
    hunk: patch::HunkView,
    path: Seq<char>,
    t: Threshold,
)
    requires
        file.len() <= usize::MAX,
    ensures
        ({
            let places = matching::found(file, hunks::pattern_of(hunk.lines), t).places;
            places.len() > 0 ==> match hunks::hunk_place(file, hunk, path, t) {
                Ok(at) => exists|i: int| 0 <= i < places.len() && places[i] == at,
                Err(e) => e == hunks::ambiguous(file, places, path) && places.len() > 1,
            }
        }),
{
    let pattern = hunks::pattern_of(hunk.lines);
    let places = matching::found(file, pattern, t).places;
    if let Some(h) = hunk.context_hint {
        crate::hints::law_hint_picks_a_match(file, h, places, pattern.len() as int);
    }
    if places.len() == 1 {
        assert(places[0] == places[0] as int);
    }
}

/// A hunk whose lines stand nowhere exactly, but somewhere with other white space, is applied at
/// such a place.
pub proof fn law_white_space_may_differ(
    file: Seq<Seq<char>>,
    hunk: patch::HunkView,
    path: Seq<char>,
    t: Threshold,
    at: int,
)
    requires
        file.len() <= usize::MAX,
        old_count(hunk.lines, hunk.lines.len() as int) > 0,
        forall|p: int| !stands_at(file, hunk.lines, p),
        stands_loosely_at(file, hunk.lines, at),
    ensures
        match hunks::hunk_outcome(file, hunk, path, t) {
            Ok((_, r)) => r.match_type == "normalized"@ && stands_loosely_at(
                file,
                hunk.lines,
                r.matched_at - 1,
            ),
            Err(e) => e matches error::PatchErrorView::AmbiguousContext {
                path: where_,
                count,
                match_positions,
                ..
            } && where_ == path && count == match_positions.len() && count >= 2 && lists_places(
                match_positions,
                |p: int| stands_loosely_at(file, hunk.lines, p),
            ),
        },
        (forall|p: int| stands_loosely_at(file, hunk.lines, p) ==> p == at) ==> (
        hunks::hunk_outcome(file, hunk, path, t) matches Ok((_, r)) && r.matched_at == at + 1),
        hunk.context_hint is None && (exists|p: int|
            p != at && #[trigger] stands_loosely_at(file, hunk.lines, p)) ==> hunks::hunk_outcome(
            file,
            hunk,
            path,
            t,
        ) is Err,
{
    lemma_expected_count(hunk.lines, hunk.lines.len() as int);
    lemma_places(file, hunk.lines);
    hunks::lemma_hunk_place_fits(file, hunk, path, t);
    let pattern = hunks::pattern_of(hunk.lines);
    let exact = matching::exact_places(file, pattern);
    let never = |p: int| stands_at(file, hunk.lines, p);
    if exact.len() > 0 {
        assert(never(exact[0] as int));
    }
    let places = matching::squashed_places(file, pattern);
    let holds = |p: int| stands_loosely_at(file, hunk.lines, p);
    assert(holds(at));
    let i = choose|i: int| 0 <= i < places.len() && places[i] == at;
    assert forall|j: int| 0 <= j < places.len() implies #[trigger] places[j] < file.len() by {
        assert(holds(places[j] as int));
    }
    lemma_ascending(places, file.len() as int);
    lemma_place_is_listed(file, hunk, path, t);
    if forall|p: int| stands_loosely_at(file, hunk.lines, p) ==> p == at {
        assert forall|j: int| 0 <= j < places.len() implies #[trigger] places[j] == at by {
            assert(holds(places[j] as int));
        }
        if places.len() > 1 {
            assert(places[0] < places[1]);
        }
    }
    if exists|p: int| p != at && #[trigger] stands_loosely_at(file, hunk.lines, p) {
        let p = choose|p: int| p != at && #[trigger] stands_loosely_at(file, hunk.lines, p);
        assert(holds(p));
        let j = choose|j: int| 0 <= j < places.len() && places[j] == p;
        assert(places.len() >= 2);
    }
}

/// The text of the lines that a hunk expects, each with its line end.
pub open spec fn wanted_text(lines: Seq<patch::DiffLineView>, k: int) -> Seq<char>
    decreases k,
{
    if k <= 0 {
        Seq::empty()
    } else if lines[k - 1] is Add {
        wanted_text(lines, k - 1)
    } else {
        wanted_text(lines, k - 1) + line_text(lines[k - 1]) + seq!['\n']
    }
}

/// The text of `n` lines of a file from `at` on, each with its line end.
pub open spec fn window_text(file: Seq<Seq<char>>, at: int, n: int) -> Seq<char>
    decreases n,
{
    if n <= 0 {
        Seq::empty()
    } else {
        window_text(file, at, n - 1) + file[at + n - 1] + seq!['\n']
    }
}

/// Lines with their ends.
pub proof fn lemma_block_text(list: Seq<Seq<char>>, at: int, n: int)
    requires
        0 <= at,
        0 < n,
        at + n <= list.len(),
    ensures
        matching::block_text(list.subrange(at, at + n)) == window_text(list, at, n),
    decreases n,
{
    reveal_strlit("\n");
    assert("\n"@ =~= seq!['\n']);
    let part = list.subrange(at, at + n);
    if n == 1 {
        reveal_with_fuel(window_text, 2);
        assert(text::join(part, "\n"@) == part[0]);
        assert(matching::block_text(part) =~= window_text(list, at, 1));
    } else {
        lemma_block_text(list, at, n - 1);
        assert(part.drop_last() =~= list.subrange(at, at + n - 1));
        assert(text::join(part, "\n"@) == text::join(part.drop_last(), "\n"@) + "\n"@ + part.last());
        assert(matching::block_text(part) =~= window_text(list, at, n));
    }
}

/// What is wanted, with line ends.
proof fn lemma_wanted_text(lines: Seq<patch::DiffLineView>, k: int)
    ensures
        wanted_text(lines, k) == window_text(
            hunks::expected(lines, k),
            0,
            hunks::expected(lines, k).len() as int,
        ),
    decreases k,
{
    if k > 0 {
        lemma_wanted_text(lines, k - 1);
        let before = hunks::expected(lines, k - 1);
        let all = hunks::expected(lines, k);
        if !(lines[k - 1] is Add) {
            lemma_window_prefix(before, all, before.len() as int);
        }
    }
}

/// The text of the first lines depends on them alone.
proof fn lemma_window_prefix(a: Seq<Seq<char>>, b: Seq<Seq<char>>, n: int)
    requires
        0 <= n <= a.len() <= b.len(),
        forall|i: int| 0 <= i < n ==> a[i] == b[i],
    ensures
        window_text(a, 0, n) == window_text(b, 0, n),
    decreases n,
{
    if n > 0 {
        lemma_window_prefix(a, b, n - 1);
    }
}

/// A hunk whose lines stand nowhere, not even with other white space, is applied only where the
/// lines of the file are similar enough to them, and then where they are most similar. It has three
/// lines to look for at least, and the file no more than two thousand.
pub proof fn law_similar_lines_come_last(
    file: Seq<Seq<char>>,
    hunk: patch::HunkView,
    path: Seq<char>,
    t: Threshold,
)
    requires
        file.len() <= usize::MAX,
        old_count(hunk.lines, hunk.lines.len() as int) > 0,
        forall|p: int| !stands_at(file, hunk.lines, p),
        forall|p: int| !stands_loosely_at(file, hunk.lines, p),
    ensures
        ({
            let n = hunk.lines.len() as int;
            let m = old_count(hunk.lines, n);
            let like = |at: int|
                similarity::similarity_spec(
                    wanted_text(hunk.lines, n),
                    window_text(file, at, m),
                );
            match hunks::hunk_outcome(file, hunk, path, t) {
                Ok((_, r)) => {
                    &&& 3 <= m && file.len() <= 2000
                    &&& like(r.matched_at - 1).reaches(t)
                    &&& forall|at: int|
                        0 <= at && at + m <= file.len() && (#[trigger] like(at)).reaches(t)
                            ==> !like(r.matched_at - 1).below(like(at))
                },
                Err(e) => {
                    &&& e matches error::PatchErrorView::ContextNotFound(d) && d.path == path
                        && d.pattern == hunks::pattern_of(hunk.lines) && d.total_lines
                        == file.len()
                    &&& 3 <= m && file.len() <= 2000 ==> forall|at: int|
                        0 <= at && at + m <= file.len() ==> !(#[trigger] like(at)).reaches(t)
                },
            }
        }),
{
    let n = hunk.lines.len() as int;
    let m = old_count(hunk.lines, n);
    lemma_expected_count(hunk.lines, n);
    lemma_places(file, hunk.lines);
    hunks::lemma_hunk_place_fits(file, hunk, path, t);
    let pattern = hunks::pattern_of(hunk.lines);
    let exact = matching::exact_places(file, pattern);
    let never = |p: int| stands_at(file, hunk.lines, p);
    if exact.len() > 0 {
        assert(never(exact[0] as int));
    }
    let loose = matching::squashed_places(file, pattern);
    let neither = |p: int| stands_loosely_at(file, hunk.lines, p);
    if loose.len() > 0 {
        assert(neither(loose[0] as int));
    }
    let like = |at: int|
        similarity::similarity_spec(wanted_text(hunk.lines, n), window_text(file, at, m));
    let windows = matching::window_similarities(file, pattern);
    matching::law_nearest_is_best(windows, t, windows.len() as int);
    lemma_wanted_text(hunk.lines, n);
    lemma_block_text(pattern, 0, m);
    assert(pattern.subrange(0, m) =~= pattern);
    assert forall|at: int| 0 <= at && at + m <= file.len() implies #[trigger] like(at)
        == windows[at] by {
        lemma_block_text(file, at, m);
    }
    lemma_place_is_listed(file, hunk, path, t);
    if let Some(h) = hunk.context_hint {
        lemma_hint_finds_nothing(file, pattern, h);
    }
    if hunks::hunk_outcome(file, hunk, path, t) is Ok {
        let at = hunks::hunk_place(file, hunk, path, t)->Ok_0;
        assert(like(at) == windows[at]);
        assert forall|p: int| 0 <= p && p + m <= file.len() && (#[trigger] like(p)).reaches(
            t,
        ) implies !like(at).below(like(p)) by {
            assert(windows[p].reaches(t));
        }
    } else if 3 <= m && file.len() <= 2000 {
        assert forall|p: int| 0 <= p && p + m <= file.len() implies !(#[trigger] like(p)).reaches(
            t,
        ) by {
            assert(like(p) == windows[p]);
            assert(!windows[p].reaches(t));
        }
    }
}

/// A window of the file, compared.
pub proof fn lemma_window_like(file: Seq<Seq<char>>, lines: Seq<patch::DiffLineView>, at: int)
    requires
        old_count(lines, lines.len() as int) > 0,
        0 <= at < matching::window_similarities(file, hunks::pattern_of(lines)).len(),
    ensures
        matching::window_similarities(file, hunks::pattern_of(lines))[at]
            == similarity::similarity_spec(
            wanted_text(lines, lines.len() as int),
            window_text(file, at, old_count(lines, lines.len() as int)),
        ),
{
    let n = lines.len() as int;
    let m = old_count(lines, n);
    let pattern = hunks::pattern_of(lines);
    lemma_expected_count(lines, n);
    lemma_wanted_text(lines, n);
    lemma_block_text(pattern, 0, m);
    assert(pattern.subrange(0, m) =~= pattern);
    lemma_block_text(file, at, m);
}

/// Where lines that stand nowhere are found, they are found by their similarity.
pub proof fn lemma_fuzzy(
    file: Seq<Seq<char>>,
    hunk: patch::HunkView,
    path: Seq<char>,
    t: Threshold,
)
    requires
        file.len() <= usize::MAX,
        old_count(hunk.lines, hunk.lines.len() as int) > 0,
        forall|p: int| !stands_at(file, hunk.lines, p),
        forall|p: int| !stands_loosely_at(file, hunk.lines, p),
        hunks::hunk_outcome(file, hunk, path, t) is Ok,
    ensures
        ({
            let windows = matching::window_similarities(file, hunks::pattern_of(hunk.lines));
            let r = hunks::hunk_outcome(file, hunk, path, t)->Ok_0.1;
            &&& matching::nearest_of(windows, t) == Some(r.matched_at - 1)
            &&& 0 <= r.matched_at - 1 < windows.len()
            &&& r.match_type == matching::fuzzy_label(windows[r.matched_at - 1].percent())
        }),
{
    lemma_expected_count(hunk.lines, hunk.lines.len() as int);
    lemma_places(file, hunk.lines);
    hunks::lemma_hunk_place_fits(file, hunk, path, t);
    let pattern = hunks::pattern_of(hunk.lines);
    let exact = matching::exact_places(file, pattern);
    let never = |p: int| stands_at(file, hunk.lines, p);
    if exact.len() > 0 {
        assert(never(exact[0] as int));
    }
    let loose = matching::squashed_places(file, pattern);
    let neither = |p: int| stands_loosely_at(file, hunk.lines, p);
    if loose.len() > 0 {
        assert(neither(loose[0] as int));
    }
    let windows = matching::window_similarities(file, pattern);
    matching::law_nearest_is_best(windows, t, windows.len() as int);
    if let Some(h) = hunk.context_hint {
        lemma_hint_finds_nothing(file, pattern, h);
    }
}

/// Where lines stand nowhere exactly, no hint finds them.
proof fn lemma_hint_finds_nothing(file: Seq<Seq<char>>, pattern: Seq<Seq<char>>, hint: Seq<char>)
    requires
        file.len() <= usize::MAX,
        pattern.len() > 0,
        matching::exact_places(file, pattern).len() == 0,
    ensures
        crate::hints::place_by_hint(file, pattern, hint) is None,
{
    let (wanted, boundary) = crate::hints::hint_parts(hint);
    crate::hints::lemma_hint_line(file, wanted, boundary, 0);
    let low = crate::hints::lowered(file);
    crate::hints::lemma_hint_line(low, crate::hints::lowercase(wanted), boundary, 0);
    if let Some(at) = crate::hints::hint_line(file, wanted, boundary, 0) {
        lemma_window_finds_nothing(file, pattern, at);
    } else if let Some(at) = crate::hints::hint_line(
        low,
        crate::hints::lowercase(wanted),
        boundary,
        0,
    ) {
        lemma_window_finds_nothing(file, pattern, at);
    }
}

/// Where lines stand nowhere exactly, they do not near a line either.
proof fn lemma_window_finds_nothing(file: Seq<Seq<char>>, pattern: Seq<Seq<char>>, at: int)
    requires
        file.len() <= usize::MAX,
        pattern.len() > 0,
        0 <= at < file.len(),
        matching::exact_places(file, pattern).len() == 0,
    ensures
        crate::hints::place_in_window(file, pattern, at) is None,
{
    let n = file.len() as int;
    let start = crate::hints::window_start(n, at);
    let end = crate::hints::window_end(n, at);
    let window = file.subrange(start, end);
    let (w, p) = (matching::trimmed_lines(window), matching::trimmed_lines(pattern));
    let f = matching::trimmed_lines(file);
    matching::law_places_are_complete(w, p, window.len() as int + 1);
    matching::law_places_are_complete(f, p, n + 1);
    let places = matching::exact_places(window, pattern);
    if places.len() > 0 {
        let k = places[0] as int;
        assert(matching::holds_lines(w, p, k));
        assert forall|i: int| 0 <= i < p.len() implies f[start + k + i] == p[i] by {
            assert(w.subrange(k, k + p.len())[i] == p[i]);
        }
        assert(f.subrange(start + k, start + k + p.len()) =~= p);
        assert(matching::holds_lines(f, p, start + k));
        assert(matching::exact_places(file, pattern).contains((start + k) as usize));
    }
}

// ---------------------------------------------------------------------------
// Several hunks
// ---------------------------------------------------------------------------

/// The hunks of an update are applied one after the other, each to the lines that those before it
/// have left, and each has its result.
pub proof fn law_hunks_are_applied_in_order(
    file: Seq<Seq<char>>,
    first: Seq<patch::HunkView>,
    second: Seq<patch::HunkView>,
    path: Seq<char>,
    t: Threshold,
)
    ensures
        ({
            let all = hunks::hunks_outcome(
                file,
                first + second,
                path,
                t,
                (first.len() + second.len()) as int,
            );
            match hunks::hunks_outcome(file, first, path, t, first.len() as int) {
                Err(e) => all == Err::<
                    (Seq<Seq<char>>, Seq<hunks::HunkResultView>),
                    error::PatchErrorView,
                >(e),
                Ok((middle, results)) => {
                    &&& results.len() == first.len()
                    &&& match hunks::hunks_outcome(middle, second, path, t, second.len() as int) {
                        Err(e) => all == Err::<
                            (Seq<Seq<char>>, Seq<hunks::HunkResultView>),
                            error::PatchErrorView,
                        >(e),
                        Ok((end, more)) => all == Ok::<
                            (Seq<Seq<char>>, Seq<hunks::HunkResultView>),
                            error::PatchErrorView,
                        >((end, results + more)),
                    }
                },
            }
        }),
        hunks::hunks_outcome(file, Seq::empty(), path, t, 0) == Ok::<
            (Seq<Seq<char>>, Seq<hunks::HunkResultView>),
            error::PatchErrorView,
        >((file, Seq::empty())),
        second.len() == 1 ==> (match hunks::hunk_outcome(file, second[0], path, t) {
            Err(e) => hunks::hunks_outcome(file, second, path, t, 1) == Err::<
                (Seq<Seq<char>>, Seq<hunks::HunkResultView>),
                error::PatchErrorView,
            >(e),
            Ok((new, r)) => hunks::hunks_outcome(file, second, path, t, 1) == Ok::<
                (Seq<Seq<char>>, Seq<hunks::HunkResultView>),
                error::PatchErrorView,
            >((new, seq![r])),
        }),
{
    reveal_with_fuel(hunks::hunks_outcome, 2);
    lemma_first_hunks(file, first, second, path, t, first.len() as int);
    lemma_then_hunks(file, first, second, path, t, second.len() as int);
    if second.len() == 1 {
        if let Ok((new, r)) = hunks::hunk_outcome(file, second[0], path, t) {
            assert(Seq::<hunks::HunkResultView>::empty().push(r) =~= seq![r]);
        }
    }
}

/// The first hunks of a list.
proof fn lemma_first_hunks(
    file: Seq<Seq<char>>,
    first: Seq<patch::HunkView>,
    second: Seq<patch::HunkView>,
    path: Seq<char>,
    t: Threshold,
    k: int,
)
    requires
        0 <= k <= first.len(),
    ensures
        hunks::hunks_outcome(file, first + second, path, t, k) == hunks::hunks_outcome(
            file,
            first,
            path,
            t,
            k,
        ),
        hunks::hunks_outcome(file, first, path, t, k) matches Ok((_, results)) ==> results.len()
            == k,
    decreases k,
{
    if k > 0 {
        lemma_first_hunks(file, first, second, path, t, k - 1);
        assert((first + second)[k - 1] == first[k - 1]);
    }
}

/// The other hunks of a list.
proof fn lemma_then_hunks(
    file: Seq<Seq<char>>,
    first: Seq<patch::HunkView>,
    second: Seq<patch::HunkView>,
    path: Seq<char>,
    t: Threshold,
    k: int,
)
    requires
        0 <= k <= second.len(),
    ensures
        ({
            let all = hunks::hunks_outcome(file, first + second, path, t, first.len() + k);
            match hunks::hunks_outcome(file, first, path, t, first.len() as int) {
                Err(e) => all == Err::<
                    (Seq<Seq<char>>, Seq<hunks::HunkResultView>),
                    error::PatchErrorView,
                >(e),
                Ok((middle, results)) => match hunks::hunks_outcome(middle, second, path, t, k) {
                    Err(e) => all == Err::<
                        (Seq<Seq<char>>, Seq<hunks::HunkResultView>),
                        error::PatchErrorView,
                    >(e),
                    Ok((end, more)) => all == Ok::<
                        (Seq<Seq<char>>, Seq<hunks::HunkResultView>),
                        error::PatchErrorView,
                    >((end, results + more)),
                },
            }
        }),
    decreases k,
{
    let n = first.len() as int;
    lemma_first_hunks(file, first, second, path, t, n);
    if k > 0 {
        lemma_then_hunks(file, first, second, path, t, k - 1);
        assert((first + second)[n + k - 1] == second[k - 1]);
        if let Ok((middle, results)) = hunks::hunks_outcome(file, first, path, t, n) {
            if let Ok((end, more)) = hunks::hunks_outcome(middle, second, path, t, k - 1) {
                if let Ok((last, r)) = hunks::hunk_outcome(end, second[k - 1], path, t) {
                    assert((results + more).push(r) =~= results + more.push(r));
                }
            }
        }
    } else {
        if let Ok((middle, results)) = hunks::hunks_outcome(file, first, path, t, n) {
            assert(results + Seq::<hunks::HunkResultView>::empty() =~= results);
        }
    }
}

/// What is told of lines that were not found: the hint of the hunk, where it has one, the excerpt of
/// the file and its closest lines.
pub proof fn law_not_found_is_told(
    file: Seq<Seq<char>>,
    hunk: patch::HunkView,
    path: Seq<char>,
    t: Threshold,
)
    ensures
        hunks::hunk_outcome(file, hunk, path, t) matches Err(error::PatchErrorView::ContextNotFound(
            d,
        )) ==> {
            let pattern = hunks::pattern_of(hunk.lines);
            &&& hunk.context_hint is None ==> d.hint is None
            &&& hunk.context_hint is Some ==> d.hint == Some("@@ hint: "@ + hunk.context_hint->0)
            &&& d.file_excerpt == crate::excerpt::excerpt(file, pattern)
            &&& d.closest_matches == crate::excerpt::closest_matches(file, pattern)
            &&& d.pattern == pattern && d.path == path
        },
{
}

} // verus!
