//! What a file holds near the place where a pattern was expected.

use vstd::prelude::*;
use vstd::string::*;

use crate::error;
use crate::error::{cat2, ClosestMatch};
use crate::lists;
use crate::matching;
use crate::matching::slice_texts;
use crate::numbers;
use crate::numbers::{decimal_chars, decimal_of};
use crate::similarity;
use crate::similarity::{Similarity, similarity};
use crate::text;
use crate::text::{chars_of, join_texts, push_all, same_chars, string_of, trimmed_end};

verus! {

broadcast use crate::lists::group_lists;

// ---------------------------------------------------------------------------
// How well a place fits
// ---------------------------------------------------------------------------

/// The end of a window of `len` lines at `at` in a file of `n` lines.
pub open spec fn cut_end(n: int, at: int, len: int) -> int {
    if at + len < n {
        at + len
    } else {
        n
    }
}

/// How many of the first `k` lines of `pattern` the file holds from `at` on, but for white
/// space at the ends of lines.
pub open spec fn equal_lines(
    file: Seq<Seq<char>>,
    pattern: Seq<Seq<char>>,
    at: int,
    k: int,
) -> int
    decreases k,
{
    if k <= 0 {
        0
    } else {
        equal_lines(file, pattern, at, k - 1) + (if at + k - 1 < file.len() && text::trim_end(
            file[at + k - 1],
        ) == text::trim_end(pattern[k - 1]) {
            1int
        } else {
            0
        })
    }
}

/// How many lines of `pattern` the file holds from `at` on.
pub open spec fn line_score(file: Seq<Seq<char>>, pattern: Seq<Seq<char>>, at: int) -> int {
    equal_lines(file, pattern, at, pattern.len() as int)
}

/// How similar the lines from `at` on are to `pattern`, as far as the file goes.
pub open spec fn likeness(file: Seq<Seq<char>>, pattern: Seq<Seq<char>>, at: int) -> Similarity {
    similarity::similarity_spec(
        matching::block_text(pattern),
        matching::block_text(
            file.subrange(at, cut_end(file.len() as int, at, pattern.len() as int)),
        ),
    )
}

/// How similar the lines of each place of `file` are to `pattern`.
pub open spec fn likenesses(file: Seq<Seq<char>>, pattern: Seq<Seq<char>>) -> Seq<Similarity> {
    Seq::new(file.len(), |at: int| likeness(file, pattern, at))
}

/// Whether the place `a` fits worse than the place `b`: fewer lines are equal, or as many and
/// the texts are less similar. `like` says how similar each place is.
pub open spec fn fits_worse(
    file: Seq<Seq<char>>,
    pattern: Seq<Seq<char>>,
    like: Seq<Similarity>,
    a: int,
    b: int,
) -> bool {
    let (x, y) = (line_score(file, pattern, a), line_score(file, pattern, b));
    x < y || (x == y && like[a].below(like[b]))
}

/// The last of the best fitting places up to `k`.
pub open spec fn best_fit(
    file: Seq<Seq<char>>,
    pattern: Seq<Seq<char>>,
    like: Seq<Similarity>,
    k: int,
) -> int
    decreases k,
{
    if k <= 0 {
        0
    } else {
        let best = best_fit(file, pattern, like, k - 1);
        if fits_worse(file, pattern, like, k, best) {
            best
        } else {
            k
        }
    }
}

/// The first place in `list` from `from` on that is less similar than the place `x`, or its end.
pub open spec fn rank_of(like: Seq<Similarity>, list: Seq<int>, x: int, from: int) -> int
    decreases list.len() - from,
{
    if from >= list.len() || like[list[from]].below(like[x]) {
        from
    } else {
        rank_of(like, list, x, from + 1)
    }
}

/// The places below `k`, the most similar first, equally similar ones in their order.
pub open spec fn ranked(like: Seq<Similarity>, k: int) -> Seq<int>
    decreases k,
{
    if k <= 0 {
        Seq::empty()
    } else {
        let before = ranked(like, k - 1);
        before.insert(rank_of(like, before, k - 1, 0), k - 1)
    }
}

/// How many close matches are reported.
pub const CLOSEST: usize = 3;

/// The first places of a ranking, at most as many as are reported.
pub open spec fn top(list: Seq<int>) -> Seq<int> {
    if list.len() > CLOSEST {
        list.take(CLOSEST as int)
    } else {
        list
    }
}

/// What is reported of a place.
pub open spec fn closest_match(
    file: Seq<Seq<char>>,
    like: Seq<Similarity>,
    at: int,
) -> error::ClosestMatchView {
    error::ClosestMatchView {
        line_number: (at + 1) as usize,
        similarity: like[at],
        actual_content: text::trim_end(file[at]),
        suggestion: "Replace pattern line 1 with: "@ + text::trim_end(file[at]),
    }
}

/// What is reported of the first `k` places of a list: those that share anything.
pub open spec fn reported(
    file: Seq<Seq<char>>,
    like: Seq<Similarity>,
    list: Seq<int>,
    k: int,
) -> Seq<error::ClosestMatchView>
    decreases k,
{
    if k <= 0 {
        Seq::empty()
    } else if like[list[k - 1]].matched > 0 {
        reported(file, like, list, k - 1).push(closest_match(file, like, list[k - 1]))
    } else {
        reported(file, like, list, k - 1)
    }
}

/// The places that are most similar to the pattern, by how similar each place is.
pub open spec fn closest_by(
    file: Seq<Seq<char>>,
    pattern: Seq<Seq<char>>,
    like: Seq<Similarity>,
) -> Seq<error::ClosestMatchView> {
    if file.len() == 0 || pattern.len() == 0 {
        Seq::empty()
    } else {
        let list = top(ranked(like, file.len() as int));
        reported(file, like, list, list.len() as int)
    }
}

/// The places that are most similar to the pattern.
pub open spec fn closest_matches(file: Seq<Seq<char>>, pattern: Seq<Seq<char>>) -> Seq<
    error::ClosestMatchView,
> {
    closest_by(file, pattern, likenesses(file, pattern))
}

// ---------------------------------------------------------------------------
// Excerpts
// ---------------------------------------------------------------------------

/// So many spaces.
pub open spec fn spaces(n: int) -> Seq<char>
    decreases n,
{
    if n <= 0 {
        Seq::empty()
    } else {
        spaces(n - 1).push(' ')
    }
}

/// A number, filled with spaces on the left up to four characters.
pub open spec fn padded(n: nat) -> Seq<char> {
    spaces(4 - numbers::decimal(n).len()) + numbers::decimal(n)
}

/// A line of the file with its number.
pub open spec fn numbered(file: Seq<Seq<char>>, at: int) -> Seq<char> {
    "  "@ + padded((at + 1) as nat) + ": "@ + text::trim_end(file[at])
}

/// The lines from `from` to `to` with their numbers.
pub open spec fn numbered_lines(file: Seq<Seq<char>>, from: int, to: int) -> Seq<Seq<char>> {
    Seq::new((to - from) as nat, |i: int| numbered(file, from + i))
}

/// The lines round the best fitting place, by how similar each place is.
pub open spec fn excerpt_by(
    file: Seq<Seq<char>>,
    pattern: Seq<Seq<char>>,
    like: Seq<Similarity>,
) -> Seq<char> {
    if file.len() == 0 || pattern.len() == 0 {
        "  (empty file)"@
    } else {
        let best = best_fit(file, pattern, like, file.len() - 1);
        let from = if best >= 2 {
            best - 2
        } else {
            0
        };
        let to = cut_end(file.len() as int, best, pattern.len() as int + 2);
        let shown = text::join(numbered_lines(file, from, to), "\n"@);
        let score = line_score(file, pattern, best);
        if score > 0 {
            "Nearest partial match ("@ + numbers::decimal(score as nat) + "/"@ + numbers::decimal(
                pattern.len(),
            ) + " lines):\n"@ + shown
        } else {
            "File preview (lines 1-"@ + numbers::decimal(to as nat) + "):\n"@ + shown
        }
    }
}

/// The lines round the best fitting place.
pub open spec fn excerpt(file: Seq<Seq<char>>, pattern: Seq<Seq<char>>) -> Seq<char> {
    excerpt_by(file, pattern, likenesses(file, pattern))
}

/// So many spaces.
pub fn blanks(n: usize) -> (r: Vec<char>)
    ensures
        r@ == spaces(n as int),
{
    let mut out: Vec<char> = Vec::new();
    let mut i: usize = 0;
    while i < n
        invariant
            0 <= i <= n,
            out@ == spaces(i as int),
        decreases n - i,
    {
        out.push(' ');
        i += 1;
    }
    out
}

/// A number, filled with spaces on the left up to four characters.
fn padded_number(n: usize) -> (r: String)
    ensures
        r@ == padded(n as nat),
{
    let digits = decimal_chars(n);
    let mut out = if digits.len() < 4 {
        blanks(4 - digits.len())
    } else {
        Vec::new()
    };
    push_all(&mut out, &digits);
    string_of(&out)
}

/// A line without the white space at its end.
fn trimmed_line(s: &str) -> (r: String)
    ensures
        r@ == text::trim_end(s@),
{
    string_of(&trimmed_end(&chars_of(s)))
}

/// How many lines of the pattern the file holds from `at` on.
fn score_at(file_lines: &Vec<String>, pattern: &Vec<String>, at: usize) -> (r: usize)
    requires
        at < file_lines@.len(),
    ensures
        r == line_score(lists::texts(file_lines@), lists::texts(pattern@), at as int),
        r <= pattern@.len(),
{
    let ghost file = lists::texts(file_lines@);
    let ghost wanted = lists::texts(pattern@);
    let n: usize = file_lines.len();
    let m: usize = pattern.len();
    let mut score: usize = 0;
    let mut k: usize = 0;
    while k < m
        invariant
            0 <= k <= m == pattern@.len(),
            n == file_lines@.len(),
            at < n,
            file == lists::texts(file_lines@),
            wanted == lists::texts(pattern@),
            score == equal_lines(file, wanted, at as int, k as int),
            score <= k,
        decreases m - k,
    {
        if k < n - at && same_chars(
            &trimmed_end(&chars_of(file_lines[at + k].as_str())),
            &trimmed_end(&chars_of(pattern[k].as_str())),
        ) {
            score += 1;
        }
        k += 1;
    }
    score
}

/// How similar each place of a file is to the pattern.
fn likeness_of_all(file_lines: &Vec<String>, pattern: &Vec<String>) -> (r: Vec<Similarity>)
    ensures
        r@ == likenesses(lists::texts(file_lines@), lists::texts(pattern@)),
{
    let ghost file = lists::texts(file_lines@);
    let ghost wanted = lists::texts(pattern@);
    let n: usize = file_lines.len();
    let m: usize = pattern.len();
    let mut target = join_texts(pattern, "\n");
    target.append("\n");
    let mut out: Vec<Similarity> = Vec::new();
    let mut at: usize = 0;
    while at < n
        invariant
            0 <= at <= n == file_lines@.len(),
            m == pattern@.len(),
            file == lists::texts(file_lines@),
            wanted == lists::texts(pattern@),
            target@ == matching::block_text(wanted),
            out@ == likenesses(file, wanted).take(at as int),
        decreases n - at,
    {
        let end: usize = if m < n - at {
            at + m
        } else {
            n
        };
        let mut window = join_texts(&slice_texts(file_lines, at, end), "\n");
        window.append("\n");
        let s = similarity(target.as_str(), window.as_str());
        assert(s == likeness(file, wanted, at as int));
        out.push(s);
        at += 1;
        assert(out@ =~= likenesses(file, wanted).take(at as int));
    }
    assert(out@ =~= likenesses(file, wanted));
    out
}

/// The last of the best fitting places.
fn best_place(file_lines: &Vec<String>, pattern: &Vec<String>, like: &Vec<Similarity>) -> (r:
    usize)
    requires
        like@.len() == file_lines@.len(),
        file_lines@.len() > 0,
    ensures
        r == best_fit(
            lists::texts(file_lines@),
            lists::texts(pattern@),
            like@,
            file_lines@.len() - 1,
        ),
        r < file_lines@.len(),
{
    let ghost file = lists::texts(file_lines@);
    let ghost wanted = lists::texts(pattern@);
    let n: usize = file_lines.len();
    let mut best: usize = 0;
    let mut best_score: usize = score_at(file_lines, pattern, 0);
    let mut k: usize = 1;
    while k < n
        invariant
            1 <= k <= n == file_lines@.len() == like@.len(),
            file == lists::texts(file_lines@),
            wanted == lists::texts(pattern@),
            best == best_fit(file, wanted, like@, k - 1),
            best_score == line_score(file, wanted, best as int),
            best < k,
        decreases n - k,
    {
        let score: usize = score_at(file_lines, pattern, k);
        let worse = score < best_score || (score == best_score && like[k].is_below(&like[best]));
        if !worse {
            best = k;
            best_score = score;
        }
        k += 1;
    }
    best
}

/// The places of a list of numbers.
spec fn places_of(list: Seq<usize>) -> Seq<int> {
    list.map_values(|p: usize| p as int)
}

/// Only the top of a ranking matters for the top after one more place is ranked.
proof fn lemma_top(like: Seq<Similarity>, list: Seq<int>, x: int)
    ensures
        top(list.insert(rank_of(like, list, x, 0), x)) == top(
            top(list).insert(rank_of(like, top(list), x, 0), x),
        ),
{
    let short = top(list);
    let i = rank_of(like, list, x, 0);
    let j = rank_of(like, short, x, 0);
    lemma_rank_of(like, list, x, 0);
    lemma_rank_of(like, short, x, 0);
    if list.len() > CLOSEST {
        lemma_rank_prefix(like, list, x, 0);
        assert(top(list.insert(i, x)) =~= top(short.insert(j, x)));
    }
}

/// A rank lies in the list, or at its end.
proof fn lemma_rank_of(
    like: Seq<Similarity>,
    list: Seq<int>,
    x: int,
    from: int,
)
    requires
        0 <= from <= list.len(),
    ensures
        from <= rank_of(like, list, x, from) <= list.len(),
    decreases list.len() - from,
{
    if from < list.len() && !like[list[from]].below(like[x]) {
        lemma_rank_of(like, list, x, from + 1);
    }
}

/// The rank in the top of a list is the rank in the list, as far as the top goes.
proof fn lemma_rank_prefix(
    like: Seq<Similarity>,
    list: Seq<int>,
    x: int,
    from: int,
)
    requires
        0 <= from <= CLOSEST < list.len(),
    ensures
        rank_of(like, top(list), x, from) == if rank_of(like, list, x, from)
            < CLOSEST {
            rank_of(like, list, x, from)
        } else {
            CLOSEST as int
        },
    decreases CLOSEST - from,
{
    lemma_rank_of(like, list, x, from);
    if from < CLOSEST && !like[list[from]].below(like[x]) {
        lemma_rank_prefix(like, list, x, from + 1);
    }
}

/// The most similar places, at most as many as are reported.
fn top_places(like: &Vec<Similarity>) -> (r: Vec<usize>)
    ensures
        places_of(r@) == top(ranked(like@, like@.len() as int)),
        forall|i: int| 0 <= i < r@.len() ==> r@[i] < like@.len(),
{
    let n: usize = like.len();
    let mut list: Vec<usize> = Vec::new();
    let mut k: usize = 0;
    assert(places_of(list@) =~= top(ranked(like@, 0)));
    while k < n
        invariant
            0 <= k <= n == like@.len(),
            places_of(list@) == top(ranked(like@, k as int)),
            list@.len() <= CLOSEST,
            forall|i: int| 0 <= i < list@.len() ==> list@[i] < k,
        decreases n - k,
    {
        let ghost before = list@;
        let s = like[k];
        let mut j: usize = 0;
        while j < list.len() && !like[list[j]].is_below(&s)
            invariant
                0 <= j <= list@.len(),
                list@ == before,
                k < n == like@.len(),
                s == like@[k as int],
                forall|i: int| 0 <= i < list@.len() ==> list@[i] < k,
                rank_of(like@, places_of(list@), k as int, 0) == rank_of(
                    like@,
                    places_of(list@),
                    k as int,
                    j as int,
                ),
            decreases list@.len() - j,
        {
            j += 1;
        }
        proof {
            lemma_top(like@, ranked(like@, k as int), k as int);
        }
        list.insert(j, k);
        assert(places_of(list@) =~= places_of(before).insert(j as int, k as int));
        if list.len() > CLOSEST {
            list.truncate(CLOSEST);
        }
        assert(places_of(list@) =~= top(places_of(before).insert(j as int, k as int)));
        k += 1;
    }
    list
}

/// The lines from `from` to `to` with their numbers.
fn number_lines(file_lines: &Vec<String>, from: usize, to: usize) -> (r: Vec<String>)
    requires
        from <= to <= file_lines@.len(),
    ensures
        lists::texts(r@) == numbered_lines(lists::texts(file_lines@), from as int, to as int),
{
    let ghost file = lists::texts(file_lines@);
    let n: usize = file_lines.len();
    let mut out: Vec<String> = Vec::new();
    let mut i: usize = from;
    while i < to
        invariant
            from <= i <= to <= n == file_lines@.len(),
            file == lists::texts(file_lines@),
            lists::texts(out@) == numbered_lines(file, from as int, i as int),
        decreases to - i,
    {
        let mut line = cat2("  ", padded_number(i + 1).as_str());
        line.append(": ");
        line.append(trimmed_line(file_lines[i].as_str()).as_str());
        assert(line@ == numbered(file, i as int));
        out.push(line);
        i += 1;
        assert(lists::texts(out@) =~= numbered_lines(file, from as int, i as int));
    }
    out
}

/// What is reported of the most similar places.
fn report_matches(file_lines: &Vec<String>, like: &Vec<Similarity>, list: &Vec<usize>) -> (r: Vec<
    ClosestMatch,
>)
    requires
        like@.len() == file_lines@.len(),
        forall|i: int| 0 <= i < list@.len() ==> list@[i] < file_lines@.len(),
    ensures
        error::match_views(r@) == reported(
            lists::texts(file_lines@),
            like@,
            places_of(list@),
            list@.len() as int,
        ),
{
    let ghost file = lists::texts(file_lines@);
    let n: usize = file_lines.len();
    let mut out: Vec<ClosestMatch> = Vec::new();
    let mut k: usize = 0;
    assert(error::match_views(out@) =~= reported(file, like@, places_of(list@), 0));
    while k < list.len()
        invariant
            0 <= k <= list@.len(),
            n == file_lines@.len() == like@.len(),
            file == lists::texts(file_lines@),
            forall|i: int| 0 <= i < list@.len() ==> list@[i] < file_lines@.len(),
            error::match_views(out@) == reported(file, like@, places_of(list@), k as int),
        decreases list@.len() - k,
    {
        let at: usize = list[k];
        let s = like[at];
        assert(places_of(list@)[k as int] == at);
        if s.matched > 0 {
            let actual = trimmed_line(file_lines[at].as_str());
            let ghost before = out@;
            let m = ClosestMatch {
                line_number: at + 1,
                similarity: s,
                suggestion: cat2("Replace pattern line 1 with: ", actual.as_str()),
                actual_content: actual,
            };
            assert(m@ == closest_match(file, like@, at as int));
            out.push(m);
            assert(error::match_views(out@) =~= error::match_views(before).push(m@));
        }
        k += 1;
    }
    out
}

/// The lines round the best fitting place, and the places that are most similar, by how similar
/// each place is.
pub fn describe_nearest(
    file_lines: &Vec<String>,
    pattern: &Vec<String>,
    like: &Vec<Similarity>,
) -> (r: (String, Vec<ClosestMatch>))
    requires
        like@.len() == file_lines@.len(),
    ensures
        r.0@ == excerpt_by(lists::texts(file_lines@), lists::texts(pattern@), like@),
        error::match_views(r.1@) == closest_by(
            lists::texts(file_lines@),
            lists::texts(pattern@),
            like@,
        ),
{
    let n: usize = file_lines.len();
    let m: usize = pattern.len();
    if n == 0 || m == 0 {
        let none: Vec<ClosestMatch> = Vec::new();
        assert(error::match_views(none@) =~= Seq::empty());
        return ("  (empty file)".to_owned(), none);
    }
    let best: usize = best_place(file_lines, pattern, like);
    let from: usize = if best >= 2 {
        best - 2
    } else {
        0
    };
    let to: usize = if m < n - best && 2 < n - best - m {
        best + m + 2
    } else {
        n
    };
    assert(to == cut_end(n as int, best as int, m + 2));
    let shown = join_texts(&number_lines(file_lines, from, to), "\n");
    let score: usize = score_at(file_lines, pattern, best);
    let mut head = if score > 0 {
        let mut h = cat2("Nearest partial match (", decimal_of(score).as_str());
        h.append("/");
        h.append(decimal_of(m).as_str());
        h.append(" lines):\n");
        h
    } else {
        let mut h = cat2("File preview (lines 1-", decimal_of(to).as_str());
        h.append("):\n");
        h
    };
    head.append(shown.as_str());
    let list = top_places(like);
    let close = report_matches(file_lines, like, &list);
    (head, close)
}

/// The lines round the best fitting place, and the places that are most similar.
pub fn nearest_excerpt_with_matches(file_lines: &Vec<String>, pattern: &Vec<String>) -> (r: (
    String,
    Vec<ClosestMatch>,
))
    ensures
        r.0@ == excerpt(lists::texts(file_lines@), lists::texts(pattern@)),
        error::match_views(r.1@) == closest_matches(
            lists::texts(file_lines@),
            lists::texts(pattern@),
        ),
{
    let like = likeness_of_all(file_lines, pattern);
    describe_nearest(file_lines, pattern, &like)
}

// ---------------------------------------------------------------------------
// Laws
// ---------------------------------------------------------------------------

/// A ranking holds every place once, and none is less similar than one behind it.
pub proof fn law_ranking_is_sorted(like: Seq<Similarity>, k: int)
    requires
        0 <= k <= like.len(),
    ensures
        ranked(like, k).len() == k,
        forall|at: int| 0 <= at < k ==> ranked(like, k).contains(at),
        forall|i: int| 0 <= i < k ==> 0 <= #[trigger] ranked(like, k)[i] < k,
        forall|i: int, j: int|
            0 <= i < j < k ==> !like[#[trigger] ranked(like, k)[i]].below(
                like[#[trigger] ranked(like, k)[j]],
            ),
    decreases k,
{
    if k > 0 {
        law_ranking_is_sorted(like, k - 1);
        let before = ranked(like, k - 1);
        let x = k - 1;
        let at = rank_of(like, before, x, 0);
        lemma_rank_of(like, before, x, 0);
        lemma_rank_is_first(like, before, x, 0);
        let after = ranked(like, k);
        assert(after == before.insert(at, x));
        assert forall|p: int| 0 <= p < k implies after.contains(p) by {
            if p == x {
                assert(after[at] == x);
            } else {
                assert(before.contains(p));
                let i = choose|i: int| 0 <= i < before.len() && before[i] == p;
                if i < at {
                    assert(after[i] == p);
                } else {
                    assert(after[i + 1] == p);
                }
            }
        }
        assert forall|i: int, j: int| 0 <= i < j < k implies !like[#[trigger] after[i]].below(
            like[#[trigger] after[j]],
        ) by {
            if j < at {
                assert(after[i] == before[i] && after[j] == before[j]);
            } else if j == at {
                assert(after[i] == before[i]);
            } else if i < at {
                assert(after[i] == before[i] && after[j] == before[j - 1]);
            } else if i == at {
                assert(after[j] == before[j - 1]);
                if j - 1 > at {
                    similarity::lemma_below(like[before[at]], like[x], like[before[j - 1]]);
                } else {
                    similarity::lemma_not_below_itself(like[before[at]]);
                    similarity::lemma_below(like[before[at]], like[x], like[before[at]]);
                }
            } else {
                assert(after[i] == before[i - 1] && after[j] == before[j - 1]);
            }
        }
    }
}

/// What stands before a rank is not less similar, and what stands at it is.
proof fn lemma_rank_is_first(like: Seq<Similarity>, list: Seq<int>, x: int, from: int)
    requires
        0 <= from <= list.len(),
    ensures
        forall|i: int|
            from <= i < rank_of(like, list, x, from) ==> !like[#[trigger] list[i]].below(like[x]),
        rank_of(like, list, x, from) < list.len() ==> like[list[rank_of(
            like,
            list,
            x,
            from,
        )]].below(like[x]),
    decreases list.len() - from,
{
    if from < list.len() && !like[list[from]].below(like[x]) {
        lemma_rank_is_first(like, list, x, from + 1);
    }
}

/// No more close matches are reported than may be.
pub proof fn law_closest_are_few(
    file: Seq<Seq<char>>,
    pattern: Seq<Seq<char>>,
    like: Seq<Similarity>,
)
    ensures
        closest_by(file, pattern, like).len() <= CLOSEST,
{
    let list = top(ranked(like, file.len() as int));
    lemma_reported_len(file, like, list, list.len() as int);
}

/// No more is reported than there are places.
proof fn lemma_reported_len(
    file: Seq<Seq<char>>,
    like: Seq<Similarity>,
    list: Seq<int>,
    k: int,
)
    requires
        0 <= k,
    ensures
        reported(file, like, list, k).len() <= k,
    decreases k,
{
    if k > 0 {
        lemma_reported_len(file, like, list, k - 1);
    }
}

} // verus!
