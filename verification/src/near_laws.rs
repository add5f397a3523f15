//! What holds of similar lines and of what is reported of them.

use vstd::prelude::*;

use crate::error;
use crate::excerpt;
use crate::hunk_laws;
use crate::hunks;
use crate::matching;
use crate::numbers;
use crate::patch;
use crate::similarity;
use crate::similarity::{Similarity, Threshold};
use crate::text;

verus! {

// ---------------------------------------------------------------------------
// Similarity
// ---------------------------------------------------------------------------

/// A similarity is that part of both texts that is the same in both: it reaches a threshold exactly
/// where twice the characters that match are as great a part of all characters, and one that
/// reaches a threshold is greater than one that does not.
pub proof fn law_similarity_order(a: Similarity, b: Similarity, t: Threshold)
    requires
        a.wf(),
        b.wf(),
        t.wf(),
    ensures
        a.total() > 0 ==> (a.reaches(t) <==> 2 * a.matched * 1_000_000_000_000_000_000 >= t.units
            * a.total()),
        a.reaches(t) && !b.reaches(t) ==> b.below(a),
        a.below(b) ==> !b.below(a),
        a.matched == a.old_len && a.matched == a.new_len ==> a.reaches(t),
        a.total() > 0 && b.total() > 0 ==> (a.below(b) <==> a.matched * b.total() < b.matched
            * a.total()),
{
    let (p, q) = (a.matched as int, b.matched as int);
    let (x, y) = (a.total(), b.total());
    let (u, n) = (t.units as int, similarity::UNITS as int);
    if a.reaches(t) && !b.reaches(t) {
        assert(y > 0);
        if x > 0 {
            assert(q * x < p * y) by (nonlinear_arith)
                requires
                    2 * p * n >= u * x,
                    2 * q * n < u * y,
                    x > 0,
                    y > 0,
                    n > 0,
            {
                assert((2 * q * n) * x < (u * y) * x);
                assert((u * x) * y <= (2 * p * n) * y);
                assert((u * y) * x == (u * x) * y);
                assert((2 * n) * (q * x) < (2 * n) * (p * y));
            }
        } else {
            assert(2 * q < y) by (nonlinear_arith)
                requires
                    2 * q * n < u * y,
                    u <= n,
                    y > 0,
                    n > 0,
            {
                assert(u * y <= n * y);
                assert((2 * q) * n < y * n);
            }
        }
    }
    if a.matched == a.old_len && a.matched == a.new_len && x > 0 {
        assert(x == 2 * p);
        assert(2 * p * n >= u * x) by (nonlinear_arith)
            requires
                x == 2 * p,
                u <= n,
                p >= 0,
        {
            assert(u * x <= n * x);
        }
    }
}

/// The similarity in per cent is the nearest whole number.
pub proof fn law_percent(a: Similarity)
    requires
        a.wf(),
        a.total() > 0,
    ensures
        0 <= a.percent() <= 100,
        2 * (200 * a.matched - a.percent() * a.total()) < a.total(),
        -a.total() <= 2 * (200 * a.matched - a.percent() * a.total()),
{
    let (m, n) = (a.matched as int, a.total());
    let d = 400 * m + n;
    let p = a.percent();
    assert(p == d / (2 * n));
    vstd::arithmetic::div_mod::lemma_fundamental_div_mod(d, 2 * n);
    let r = d % (2 * n);
    assert(0 <= r < 2 * n);
    assert(d == (2 * n) * p + r);
    assert((2 * n) * p == 2 * (p * n)) by (nonlinear_arith);
    assert(p >= 0) by (nonlinear_arith)
        requires
            d == (2 * n) * p + r,
            d >= 0,
            r < 2 * n,
            n > 0,
    ;
    assert(p <= 100) by (nonlinear_arith)
        requires
            d == (2 * n) * p + r,
            d <= 201 * n,
            r >= 0,
            n > 0,
    ;
}

/// What is not above the lesser of two is below the greater.
proof fn lemma_below_greater(c: Similarity, a: Similarity, b: Similarity)
    requires
        a.wf(),
        b.wf(),
        c.wf(),
        !a.below(c),
        a.below(b),
    ensures
        c.below(b),
{
    let (p, q, r) = (a.matched as int, b.matched as int, c.matched as int);
    let (x, y, z) = (a.total(), b.total(), c.total());
    if z == 0 {
        if y > 0 {
            assert(false) by (nonlinear_arith)
                requires
                    2 * p >= x,
                    2 * q <= y,
                    p * y < q * x,
                    x > 0,
                    y > 0,
            {
                assert(x * y <= (2 * p) * y);
                assert((2 * q) * x <= y * x);
                assert(2 * (p * y) < 2 * (q * x));
            }
        }
    } else if y == 0 {
        assert(2 * r < z) by (nonlinear_arith)
            requires
                2 * p < x,
                r * x <= p * z,
                x > 0,
                z > 0,
        {
            assert((2 * p) * z < x * z);
            assert(2 * (r * x) <= 2 * (p * z));
            assert((2 * r) * x < z * x);
        }
    } else {
        assert(r * y < q * z) by (nonlinear_arith)
            requires
                r * x <= p * z,
                p * y < q * x,
                x > 0,
                y > 0,
                z > 0,
        {
            assert((r * x) * y <= (p * z) * y);
            assert((p * y) * z < (q * x) * z);
            assert((r * y) * x < (q * z) * x);
        }
    }
}

/// Of several places that are equally similar, the first is taken: each before it that is similar
/// enough is less similar.
pub proof fn law_first_of_the_nearest(list: Seq<Similarity>, t: Threshold, upto: int)
    requires
        0 <= upto <= list.len(),
        forall|i: int| 0 <= i < list.len() ==> (#[trigger] list[i]).wf(),
    ensures
        matching::nearest_below(list, t, upto) matches Some(best) ==> forall|at: int|
            0 <= at < best && (#[trigger] list[at]).reaches(t) ==> list[at].below(list[best]),
    decreases upto,
{
    if upto > 0 {
        law_first_of_the_nearest(list, t, upto - 1);
        matching::law_nearest_is_best(list, t, upto - 1);
        let before = matching::nearest_below(list, t, upto - 1);
        let best = matching::nearest_below(list, t, upto);
        if best is Some && best != before && before is Some {
            let new = list[upto - 1];
            assert forall|at: int| 0 <= at < upto - 1 && (#[trigger] list[at]).reaches(
                t,
            ) implies list[at].below(new) by {
                lemma_below_greater(list[at], list[before->0], new);
            }
        }
    }
}

/// A hunk whose lines stand nowhere, not even with other white space, is applied at the first of the
/// most similar places, and it is said how similar it is.
pub proof fn law_similar_place(
    file: Seq<Seq<char>>,
    hunk: patch::HunkView,
    path: Seq<char>,
    t: Threshold,
)
    requires
        file.len() <= usize::MAX,
        hunk_laws::old_count(hunk.lines, hunk.lines.len() as int) > 0,
        forall|p: int| !hunk_laws::stands_at(file, hunk.lines, p),
        forall|p: int| !hunk_laws::stands_loosely_at(file, hunk.lines, p),
        hunks::hunk_outcome(file, hunk, path, t) is Ok,
        forall|at: int|
            0 <= at < matching::window_similarities(file, hunks::pattern_of(hunk.lines)).len()
                ==> (#[trigger] matching::window_similarities(
                file,
                hunks::pattern_of(hunk.lines),
            )[at]).wf(),
    ensures
        ({
            let n = hunk.lines.len() as int;
            let m = hunk_laws::old_count(hunk.lines, n);
            let like = |at: int|
                similarity::similarity_spec(
                    hunk_laws::wanted_text(hunk.lines, n),
                    hunk_laws::window_text(file, at, m),
                );
            let r = hunks::hunk_outcome(file, hunk, path, t)->Ok_0.1;
            &&& r.match_type == "fuzzy:"@ + numbers::decimal(
                like(r.matched_at - 1).percent() as nat,
            ) + "%"@
            &&& forall|at: int|
                0 <= at < r.matched_at - 1 && (#[trigger] like(at)).reaches(t) ==> like(at).below(
                    like(r.matched_at - 1),
                )
        }),
{
    let n = hunk.lines.len() as int;
    let m = hunk_laws::old_count(hunk.lines, n);
    let pattern = hunks::pattern_of(hunk.lines);
    let windows = matching::window_similarities(file, pattern);
    let like = |at: int|
        similarity::similarity_spec(
            hunk_laws::wanted_text(hunk.lines, n),
            hunk_laws::window_text(file, at, m),
        );
    hunk_laws::law_similar_lines_come_last(file, hunk, path, t);
    hunk_laws::lemma_fuzzy(file, hunk, path, t);
    law_first_of_the_nearest(windows, t, windows.len() as int);
    let r = hunks::hunk_outcome(file, hunk, path, t)->Ok_0.1;
    let best = r.matched_at - 1;
    assert forall|at: int| 0 <= at < windows.len() implies #[trigger] like(at)
        == windows[at] by {
        hunk_laws::lemma_window_like(file, hunk.lines, at);
    }
    assert(like(best) == windows[best]);
    assert forall|at: int| 0 <= at < best && (#[trigger] like(at)).reaches(t) implies like(
        at,
    ).below(like(best)) by {
        assert(like(at) == windows[at]);
        assert(windows[at].reaches(t));
    }
}

// ---------------------------------------------------------------------------
// The closest lines
// ---------------------------------------------------------------------------

/// Equally similar places are ranked in their order.
proof fn lemma_ranked_in_order(like: Seq<Similarity>, k: int)
    requires
        0 <= k <= like.len(),
        forall|i: int| 0 <= i < like.len() ==> (#[trigger] like[i]).wf(),
    ensures
        forall|i: int, j: int|
            #![trigger excerpt::ranked(like, k)[i], excerpt::ranked(like, k)[j]]
            0 <= i < j < k ==> like[excerpt::ranked(like, k)[j]].below(
                like[excerpt::ranked(like, k)[i]],
            ) || excerpt::ranked(like, k)[i] < excerpt::ranked(like, k)[j],
    decreases k,
{
    excerpt::law_ranking_is_sorted(like, k);
    if k > 0 {
        lemma_ranked_in_order(like, k - 1);
        excerpt::law_ranking_is_sorted(like, k - 1);
        let before = excerpt::ranked(like, k - 1);
        let after = excerpt::ranked(like, k);
        let x = k - 1;
        let p = excerpt::rank_of(like, before, x, 0);
        lemma_rank(like, before, x, 0);
        assert(after == before.insert(p, x));
        assert forall|i: int, j: int|
            #![trigger after[i], after[j]]
            0 <= i < j < k implies like[after[j]].below(like[after[i]]) || after[i]
            < after[j] by {
            let a = if i < p {
                i
            } else {
                i - 1
            };
            let b = if j < p {
                j
            } else {
                j - 1
            };
            if i != p {
                assert(after[i] == before[a]);
            }
            if j != p {
                assert(after[j] == before[b]);
            }
            if i == p {
                if b > p {
                    assert(!like[before[p]].below(like[before[b]]));
                    lemma_below_greater(like[before[b]], like[before[p]], like[x]);
                }
            } else if j != p {
                assert(before[a] < k - 1 && before[b] < k - 1);
            }
        }
    }
}

/// Where a place is ranked.
proof fn lemma_rank(like: Seq<Similarity>, list: Seq<int>, x: int, from: int)
    requires
        0 <= from <= list.len(),
    ensures
        from <= excerpt::rank_of(like, list, x, from) <= list.len(),
        excerpt::rank_of(like, list, x, from) < list.len() ==> like[list[excerpt::rank_of(
            like,
            list,
            x,
            from,
        )]].below(like[x]),
        forall|i: int|
            from <= i < excerpt::rank_of(like, list, x, from) ==> !like[#[trigger] list[i]].below(
                like[x],
            ),
    decreases list.len() - from,
{
    if from < list.len() && !like[list[from]].below(like[x]) {
        lemma_rank(like, list, x, from + 1);
    }
}

/// Whether what is reported is of a place.
pub open spec fn is_of(
    m: error::ClosestMatchView,
    file: Seq<Seq<char>>,
    like: Seq<Similarity>,
    at: int,
) -> bool {
    &&& m.line_number == at + 1
    &&& m.similarity == like[at]
    &&& m.actual_content == text::trim_end(file[at])
    &&& m.suggestion == "Replace pattern line 1 with: "@ + text::trim_end(file[at])
}

/// Whether a report is rightly behind another: it is less similar, or as similar and further down.
pub open spec fn follows(a: error::ClosestMatchView, b: error::ClosestMatchView) -> bool {
    &&& !a.similarity.below(b.similarity)
    &&& b.similarity.below(a.similarity) || a.line_number < b.line_number
}

/// Whether a place is among those that are reported.
pub open spec fn has_report(out: Seq<error::ClosestMatchView>, at: int) -> bool {
    exists|i: int| 0 <= i < out.len() && (#[trigger] out[i]).line_number == at + 1
}

/// Whether what is reported is rightly before a place.
spec fn leads(m: error::ClosestMatchView, like: Seq<Similarity>, at: int) -> bool {
    &&& !m.similarity.below(like[at])
    &&& like[at].below(m.similarity) || m.line_number < at + 1
}

/// Whether a list of places is ranked.
spec fn is_ranking(like: Seq<Similarity>, list: Seq<int>) -> bool {
    &&& forall|i: int| 0 <= i < list.len() ==> 0 <= #[trigger] list[i] < like.len()
    &&& forall|i: int, j: int|
        0 <= i < j < list.len() ==> ranks_before(like, #[trigger] list[i], #[trigger] list[j])
}

/// Whether a place is rightly ranked before another.
spec fn ranks_before(like: Seq<Similarity>, a: int, b: int) -> bool {
    &&& !like[a].below(like[b])
    &&& like[b].below(like[a]) || a < b
}

/// What is reported of the first places of a list.
proof fn lemma_reported(
    file: Seq<Seq<char>>,
    like: Seq<Similarity>,
    list: Seq<int>,
    k: int,
)
    requires
        0 <= k <= list.len(),
        file.len() < usize::MAX,
        like.len() == file.len(),
        is_ranking(like, list),
    ensures
        ({
            let out = excerpt::reported(file, like, list, k);
            &&& out.len() <= k
            &&& forall|i: int|
                0 <= i < out.len() ==> is_of(
                    #[trigger] out[i],
                    file,
                    like,
                    out[i].line_number - 1,
                ) && 1 <= out[i].line_number <= file.len() && out[i].similarity.matched > 0
            &&& forall|i: int, d: int|
                0 <= i < out.len() && k <= d < list.len() ==> leads(
                    #[trigger] out[i],
                    like,
                    #[trigger] list[d],
                )
            &&& forall|i: int, j: int|
                0 <= i < j < out.len() ==> follows(#[trigger] out[i], #[trigger] out[j])
        }),
    decreases k,
{
    if k > 0 {
        lemma_reported(file, like, list, k - 1);
        let before = excerpt::reported(file, like, list, k - 1);
        let out = excerpt::reported(file, like, list, k);
        let at = list[k - 1];
        if like[at].matched > 0 {
            let m = excerpt::closest_match(file, like, at);
            assert(out == before.push(m));
            assert(m.line_number == at + 1);
            assert forall|i: int, d: int| 0 <= i < out.len() && k <= d < list.len() implies leads(
                #[trigger] out[i],
                like,
                #[trigger] list[d],
            ) by {
                if i < before.len() {
                    assert(out[i] == before[i]);
                    assert(leads(before[i], like, list[d]));
                } else {
                    assert(ranks_before(like, list[k - 1], list[d]));
                }
            }
            assert forall|i: int, j: int| 0 <= i < j < out.len() implies follows(
                #[trigger] out[i],
                #[trigger] out[j],
            ) by {
                assert(out[i] == before[i]);
                if j < before.len() {
                    assert(out[j] == before[j]);
                    assert(follows(before[i], before[j]));
                } else {
                    assert(leads(before[i], like, list[k - 1]));
                }
            }
            assert forall|i: int| 0 <= i < out.len() implies is_of(
                #[trigger] out[i],
                file,
                like,
                out[i].line_number - 1,
            ) && 1 <= out[i].line_number <= file.len() && out[i].similarity.matched > 0 by {
                if i < before.len() {
                    assert(out[i] == before[i]);
                }
            }
        }
    }
}

/// What matches among the first places of a list is reported.
proof fn lemma_has_report(
    file: Seq<Seq<char>>,
    like: Seq<Similarity>,
    list: Seq<int>,
    k: int,
    c: int,
)
    requires
        0 <= c < k <= list.len(),
        file.len() < usize::MAX,
        like.len() == file.len(),
        0 <= list[c] < like.len(),
        like[list[c]].matched > 0,
    ensures
        has_report(excerpt::reported(file, like, list, k), list[c]),
    decreases k,
{
    let before = excerpt::reported(file, like, list, k - 1);
    let out = excerpt::reported(file, like, list, k);
    if c < k - 1 {
        lemma_has_report(file, like, list, k - 1, c);
        let i = choose|i: int|
            0 <= i < before.len() && (#[trigger] before[i]).line_number == list[c] + 1;
        assert(out[i] == before[i]);
    } else {
        assert(out[before.len() as int].line_number == list[c] + 1);
    }
}

/// The closest lines that are reported are at most three, the most similar first and equally similar
/// ones in their order, each with its number and its text; one that is not reported though something
/// of it matches is no more similar than three that are.
pub proof fn law_closest_lines(
    file: Seq<Seq<char>>,
    pattern: Seq<Seq<char>>,
    like: Seq<Similarity>,
    at: int,
)
    requires
        0 < file.len() < usize::MAX,
        pattern.len() > 0,
        like.len() == file.len(),
        forall|i: int|
            0 <= i < like.len() ==> (#[trigger] like[i]).wf() && like[i].total() > 0,
        0 <= at < file.len(),
        like[at].matched > 0,
    ensures
        ({
            let out = excerpt::closest_by(file, pattern, like);
            &&& out.len() <= 3
            &&& forall|i: int|
                0 <= i < out.len() ==> is_of(
                    #[trigger] out[i],
                    file,
                    like,
                    out[i].line_number - 1,
                ) && 1 <= out[i].line_number <= file.len() && out[i].similarity.matched > 0
            &&& forall|i: int, j: int|
                0 <= i < j < out.len() ==> follows(#[trigger] out[i], #[trigger] out[j])
            &&& has_report(out, at) || (out.len() == 3 && !out[2].similarity.below(like[at]))
        }),
{
    let n = file.len() as int;
    let all = excerpt::ranked(like, n);
    excerpt::law_ranking_is_sorted(like, n);
    lemma_ranked_in_order(like, n);
    assert(is_ranking(like, all)) by {
        assert forall|i: int, j: int| 0 <= i < j < all.len() implies ranks_before(
            like,
            #[trigger] all[i],
            #[trigger] all[j],
        ) by {}
    }
    let list = excerpt::top(all);
    let k = list.len() as int;
    lemma_top_is_ranking(like, all);
    lemma_reported(file, like, list, k);
    assert(all.contains(at));
    let c = choose|c: int| 0 <= c < all.len() && all[c] == at;
    if c < k {
        assert(list[c] == at);
        lemma_has_report(file, like, list, k, c);
    } else {
        lemma_all_reported(file, like, list, at, all, c);
    }
}

/// The first places of a ranking are ranked.
proof fn lemma_top_is_ranking(like: Seq<Similarity>, all: Seq<int>)
    requires
        is_ranking(like, all),
    ensures
        is_ranking(like, excerpt::top(all)),
{
    let list = excerpt::top(all);
    assert forall|i: int| 0 <= i < list.len() implies 0 <= #[trigger] list[i] < like.len() by {
        assert(list[i] == all[i]);
    }
    assert forall|i: int, j: int| 0 <= i < j < list.len() implies ranks_before(
        like,
        #[trigger] list[i],
        #[trigger] list[j],
    ) by {
        assert(list[i] == all[i] && list[j] == all[j]);
    }
}

/// Where a place behind the first three has something that matches, all three have, and are
/// reported.
proof fn lemma_all_reported(
    file: Seq<Seq<char>>,
    like: Seq<Similarity>,
    list: Seq<int>,
    at: int,
    all: Seq<int>,
    c: int,
)
    requires
        file.len() < usize::MAX,
        like.len() == file.len(),
        forall|i: int|
            0 <= i < like.len() ==> (#[trigger] like[i]).wf() && like[i].total() > 0,
        list == all.take(3),
        3 <= c < all.len(),
        all[c] == at,
        0 <= at < like.len(),
        like[at].matched > 0,
        is_ranking(like, all),
    ensures
        excerpt::reported(file, like, list, 3).len() == 3,
        !excerpt::reported(file, like, list, 3)[2].similarity.below(like[at]),
{
    assert(list[0] == all[0] && list[1] == all[1] && list[2] == all[2]);
    assert forall|i: int| 0 <= i < 3 implies like[#[trigger] list[i]].matched > 0 by {
        assert(list[i] == all[i]);
        assert(ranks_before(like, all[i], all[c]));
        let (a, b) = (like[all[i]], like[at]);
        if a.matched == 0 {
            assert(a.matched * b.total() == 0) by (nonlinear_arith)
                requires
                    a.matched == 0,
            ;
            assert(b.matched * a.total() > 0) by (nonlinear_arith)
                requires
                    b.matched > 0,
                    a.total() > 0,
            ;
        }
    }
    assert(like[list[0]].matched > 0 && like[list[1]].matched > 0 && like[list[2]].matched > 0);
    reveal_with_fuel(excerpt::reported, 4);
    assert(ranks_before(like, all[2], all[c]));
}

// ---------------------------------------------------------------------------
// The nearest lines
// ---------------------------------------------------------------------------

/// How many lines of a pattern stand at a place, but for white space at their ends.
pub open spec fn lines_there(
    file: Seq<Seq<char>>,
    pattern: Seq<Seq<char>>,
    at: int,
    k: int,
) -> int
    decreases k,
{
    if k <= 0 {
        0
    } else if at + k - 1 < file.len() && text::trim_end(file[at + k - 1]) == text::trim_end(
        pattern[k - 1],
    ) {
        lines_there(file, pattern, at, k - 1) + 1
    } else {
        lines_there(file, pattern, at, k - 1)
    }
}

/// Lines, counted.
proof fn lemma_lines_there(file: Seq<Seq<char>>, pattern: Seq<Seq<char>>, at: int, k: int)
    ensures
        excerpt::equal_lines(file, pattern, at, k) == lines_there(file, pattern, at, k),
        lines_there(file, pattern, at, k) >= 0,
    decreases k,
{
    if k > 0 {
        lemma_lines_there(file, pattern, at, k - 1);
    }
}

/// The best place, as far as it was looked for.
proof fn lemma_best_fit(
    file: Seq<Seq<char>>,
    pattern: Seq<Seq<char>>,
    like: Seq<Similarity>,
    k: int,
)
    requires
        0 <= k < like.len(),
        forall|i: int| 0 <= i < like.len() ==> (#[trigger] like[i]).wf(),
    ensures
        ({
            let best = excerpt::best_fit(file, pattern, like, k);
            let n = pattern.len() as int;
            &&& 0 <= best <= k
            &&& forall|at: int|
                0 <= at <= k ==> #[trigger] lines_there(file, pattern, at, n) <= lines_there(
                    file,
                    pattern,
                    best,
                    n,
                )
            &&& forall|at: int|
                0 <= at <= k && #[trigger] lines_there(file, pattern, at, n) == lines_there(
                    file,
                    pattern,
                    best,
                    n,
                ) ==> !like[best].below(like[at])
            &&& forall|at: int|
                best < at <= k && #[trigger] lines_there(file, pattern, at, n) == lines_there(
                    file,
                    pattern,
                    best,
                    n,
                ) ==> like[at].below(like[best])
        }),
    decreases k,
{
    let n = pattern.len() as int;
    lemma_lines_there(file, pattern, k, n);
    if k > 0 {
        lemma_best_fit(file, pattern, like, k - 1);
        let before = excerpt::best_fit(file, pattern, like, k - 1);
        let best = excerpt::best_fit(file, pattern, like, k);
        lemma_lines_there(file, pattern, before, n);
        assert forall|at: int| 0 <= at <= k && #[trigger] lines_there(file, pattern, at, n)
            == lines_there(file, pattern, best, n) implies !like[best].below(like[at]) by {
            if at < k && best == k {
                if lines_there(file, pattern, before, n) == lines_there(file, pattern, k, n) {
                    assert(!like[before].below(like[at]));
                    assert(!like[k].below(like[before]));
                    if like[k].below(like[at]) {
                        lemma_below_greater(like[before], like[k], like[at]);
                    }
                }
            }
        }
    }
}

/// Whether no place has more of the lines, nor as many and is more similar, nor is further down and as
/// good.
pub open spec fn is_nearest(
    file: Seq<Seq<char>>,
    pattern: Seq<Seq<char>>,
    like: Seq<Similarity>,
    best: int,
) -> bool {
    let n = pattern.len() as int;
    let score = lines_there(file, pattern, best, n);
    &&& 0 <= best < file.len()
    &&& forall|at: int|
        0 <= at < file.len() ==> #[trigger] lines_there(file, pattern, at, n) <= score
    &&& forall|at: int|
        0 <= at < file.len() && #[trigger] lines_there(file, pattern, at, n) == score
            ==> !like[best].below(like[at])
    &&& forall|at: int|
        best < at < file.len() && #[trigger] lines_there(file, pattern, at, n) == score
            ==> like[at].below(like[best])
}

/// Lines with their numbers, from one, without the white space at their ends.
pub open spec fn excerpt_lines(file: Seq<Seq<char>>, from: int, to: int) -> Seq<Seq<char>> {
    Seq::new(
        (to - from) as nat,
        |i: int| "  "@ + numbered_from(from + i + 1) + ": "@ + text::trim_end(file[from + i]),
    )
}

/// The excerpt of a file that lines were not found in is of the place with the most of these lines,
/// and of several such places one that is most similar. It starts two lines before that place and
/// goes two lines beyond the lines that were looked for, as far as there are any. Each line has its
/// number, from one.
pub proof fn law_excerpt(file: Seq<Seq<char>>, pattern: Seq<Seq<char>>, like: Seq<Similarity>)
    requires
        file.len() > 0,
        pattern.len() > 0,
        like.len() == file.len(),
        forall|i: int| 0 <= i < like.len() ==> (#[trigger] like[i]).wf(),
    ensures
        exists|best: int|
            {
                let n = pattern.len() as int;
                let score = lines_there(file, pattern, best, n);
                let from = if best < 2 {
                    0
                } else {
                    best - 2
                };
                let to = if best + n + 2 < file.len() {
                    best + n + 2
                } else {
                    file.len() as int
                };
                let shown = text::join(excerpt_lines(file, from, to), "\n"@);
                &&& #[trigger] is_nearest(file, pattern, like, best)
                &&& score > 0 ==> excerpt::excerpt_by(file, pattern, like)
                    == "Nearest partial match ("@ + numbers::decimal(score as nat) + "/"@
                    + numbers::decimal(pattern.len()) + " lines):\n"@ + shown
                &&& score == 0 ==> excerpt::excerpt_by(file, pattern, like)
                    == "File preview (lines 1-"@ + numbers::decimal(to as nat) + "):\n"@ + shown
            },
{
    let n = pattern.len() as int;
    let best = excerpt::best_fit(file, pattern, like, file.len() - 1);
    lemma_best_fit(file, pattern, like, file.len() - 1);
    lemma_lines_there(file, pattern, best, n);
    let score = lines_there(file, pattern, best, n);
    let from = if best < 2 {
        0
    } else {
        best - 2
    };
    let to = if best + n + 2 < file.len() {
        best + n + 2
    } else {
        file.len() as int
    };
    assert(is_nearest(file, pattern, like, best));
    let lines = excerpt_lines(file, from, to);
    assert forall|i: int| 0 <= i < lines.len() implies #[trigger] lines[i] == excerpt::numbered(
        file,
        from + i,
    ) by {
        lemma_spaces(4 - numbers::decimal((from + i + 1) as nat).len());
    }
    assert(lines =~= excerpt::numbered_lines(file, from, to));
    let shown = text::join(lines, "\n"@);
    assert(shown == text::join(excerpt::numbered_lines(file, from, to), "\n"@));
}

/// Nothing is near in an empty file, nor to no lines.
pub proof fn law_nothing_near(
    file: Seq<Seq<char>>,
    pattern: Seq<Seq<char>>,
    like: Seq<Similarity>,
)
    requires
        file.len() == 0 || pattern.len() == 0,
    ensures
        excerpt::excerpt_by(file, pattern, like) == "  (empty file)"@,
        excerpt::closest_by(file, pattern, like).len() == 0,
{
}

/// So many spaces.
proof fn lemma_spaces(n: int)
    ensures
        excerpt::spaces(n) == blanks(n),
    decreases n,
{
    if n > 0 {
        lemma_spaces(n - 1);
        assert(excerpt::spaces(n) =~= blanks(n));
    } else {
        assert(excerpt::spaces(n) =~= blanks(n));
    }
}

/// So many spaces, or none.
pub open spec fn blanks(n: int) -> Seq<char> {
    Seq::new(
        if n > 0 {
            n as nat
        } else {
            0
        },
        |i: int| ' ',
    )
}

/// A number, with spaces before it where it has fewer than four digits.
pub open spec fn numbered_from(n: int) -> Seq<char> {
    blanks(4 - numbers::decimal(n as nat).len()) + numbers::decimal(n as nat)
}

} // verus!
