//! Finding the place of a hunk in a file.

use vstd::prelude::*;
use vstd::string::*;

use crate::lists;
use crate::numbers;
use crate::numbers::decimal_of;
use crate::error::cat3;
use crate::similarity;
use crate::similarity::{Similarity, Threshold, similarity};
use crate::text;
use crate::text::{chars_of, join_rows, join_texts, same_chars, split_words, trimmed_end};

verus! {

broadcast use crate::lists::group_lists;

// ---------------------------------------------------------------------------
// Lines that are the same under a key
// ---------------------------------------------------------------------------

/// The lines without the white space at their ends.
pub open spec fn trimmed_lines(lines: Seq<Seq<char>>) -> Seq<Seq<char>> {
    lines.map_values(|l: Seq<char>| text::trim_end(l))
}

/// The words of a line, with one space between each two.
pub open spec fn squash(line: Seq<char>) -> Seq<char> {
    text::join(text::words(line), " "@)
}

/// The lines with their white space made uniform.
pub open spec fn squashed_lines(lines: Seq<Seq<char>>) -> Seq<Seq<char>> {
    lines.map_values(|l: Seq<char>| squash(l))
}

/// Whether the lines of `file` from `at` on are those of `pattern`.
pub open spec fn holds_lines(file: Seq<Seq<char>>, pattern: Seq<Seq<char>>, at: int) -> bool {
    &&& 0 <= at
    &&& at + pattern.len() <= file.len()
    &&& file.subrange(at, at + pattern.len()) == pattern
}

/// The places below `upto` at which `file` holds `pattern`, in order.
pub open spec fn places_below(
    file: Seq<Seq<char>>,
    pattern: Seq<Seq<char>>,
    upto: int,
) -> Seq<usize>
    decreases upto,
{
    if upto <= 0 {
        Seq::empty()
    } else if holds_lines(file, pattern, upto - 1) {
        places_below(file, pattern, upto - 1).push((upto - 1) as usize)
    } else {
        places_below(file, pattern, upto - 1)
    }
}

/// All the places at which `file` holds `pattern`, in order.
pub open spec fn places(file: Seq<Seq<char>>, pattern: Seq<Seq<char>>) -> Seq<usize> {
    places_below(file, pattern, file.len() as int + 1)
}

/// The places at which `file` holds `pattern` but for white space at the ends of lines.
pub open spec fn exact_places(file: Seq<Seq<char>>, pattern: Seq<Seq<char>>) -> Seq<usize> {
    if pattern.len() == 0 {
        Seq::empty()
    } else {
        places(trimmed_lines(file), trimmed_lines(pattern))
    }
}

/// The places at which `file` holds `pattern` but for the amount of white space.
pub open spec fn squashed_places(file: Seq<Seq<char>>, pattern: Seq<Seq<char>>) -> Seq<usize> {
    places(squashed_lines(file), squashed_lines(pattern))
}

/// What the places below a bound are: those, and only those, that hold the pattern, in
/// ascending order.
pub proof fn law_places_are_complete(file: Seq<Seq<char>>, pattern: Seq<Seq<char>>, upto: int)
    requires
        upto <= file.len() + 1,
        file.len() <= usize::MAX,
    ensures
        forall|i: int|
            0 <= i < places_below(file, pattern, upto).len() ==> holds_lines(
                file,
                pattern,
                #[trigger] places_below(file, pattern, upto)[i] as int,
            ) && places_below(file, pattern, upto)[i] < upto,
        forall|at: int|
            0 <= at < upto && #[trigger] holds_lines(file, pattern, at) ==> places_below(
                file,
                pattern,
                upto,
            ).contains(at as usize),
        forall|i: int, j: int|
            0 <= i < j < places_below(file, pattern, upto).len() ==> places_below(
                file,
                pattern,
                upto,
            )[i] < places_below(file, pattern, upto)[j],
    decreases upto,
{
    if upto > 0 {
        law_places_are_complete(file, pattern, upto - 1);
        let before = places_below(file, pattern, upto - 1);
        let all = places_below(file, pattern, upto);
        if holds_lines(file, pattern, upto - 1) {
            assert(all == before.push((upto - 1) as usize));
            assert forall|at: int|
                0 <= at < upto && #[trigger] holds_lines(file, pattern, at) implies all.contains(
                at as usize,
            ) by {
                if at < upto - 1 {
                    assert(before.contains(at as usize));
                    let i = choose|i: int| 0 <= i < before.len() && before[i] == at as usize;
                    assert(all[i] == at as usize);
                } else {
                    assert(all[before.len() as int] == at as usize);
                }
            }
        }
    }
}

/// A list of strings without the white space at the ends.
fn trim_each(v: &Vec<String>) -> (r: Vec<Vec<char>>)
    ensures
        lists::rows(r@) == trimmed_lines(lists::texts(v@)),
{
    let mut out: Vec<Vec<char>> = Vec::new();
    let mut i: usize = 0;
    while i < v.len()
        invariant
            0 <= i <= v@.len(),
            lists::rows(out@) == trimmed_lines(lists::texts(v@)).take(i as int),
        decreases v@.len() - i,
    {
        out.push(trimmed_end(&chars_of(v[i].as_str())));
        i += 1;
        assert(lists::rows(out@) =~= trimmed_lines(lists::texts(v@)).take(i as int));
    }
    assert(lists::rows(out@) =~= trimmed_lines(lists::texts(v@)));
    out
}

/// A line with its white space made uniform.
fn squashed(s: &str) -> (r: Vec<char>)
    ensures
        r@ == squash(s@),
{
    join_rows(&split_words(&chars_of(s)), " ")
}

/// A list of strings with their white space made uniform.
fn squash_each(v: &Vec<String>) -> (r: Vec<Vec<char>>)
    ensures
        lists::rows(r@) == squashed_lines(lists::texts(v@)),
{
    let mut out: Vec<Vec<char>> = Vec::new();
    let mut i: usize = 0;
    while i < v.len()
        invariant
            0 <= i <= v@.len(),
            lists::rows(out@) == squashed_lines(lists::texts(v@)).take(i as int),
        decreases v@.len() - i,
    {
        out.push(squashed(v[i].as_str()));
        i += 1;
        assert(lists::rows(out@) =~= squashed_lines(lists::texts(v@)).take(i as int));
    }
    assert(lists::rows(out@) =~= squashed_lines(lists::texts(v@)));
    out
}

/// Whether `file` holds `pattern` at the place `at`.
fn rows_hold(file: &Vec<Vec<char>>, pattern: &Vec<Vec<char>>, at: usize) -> (r: bool)
    requires
        at <= file@.len(),
    ensures
        r == holds_lines(lists::rows(file@), lists::rows(pattern@), at as int),
{
    let n: usize = file.len();
    if pattern.len() > n - at {
        return false;
    }
    let ghost window = lists::rows(file@).subrange(at as int, at + pattern@.len());
    let mut i: usize = 0;
    while i < pattern.len()
        invariant
            0 <= i <= pattern@.len(),
            at + pattern@.len() <= file@.len() == n,
            window == lists::rows(file@).subrange(at as int, at + pattern@.len()),
            forall|j: int| 0 <= j < i ==> window[j] == lists::rows(pattern@)[j],
        decreases pattern@.len() - i,
    {
        assert(window[i as int] == file@[at + i]@);
        if !same_chars(&file[at + i], &pattern[i]) {
            assert(window[i as int] != lists::rows(pattern@)[i as int]);
            return false;
        }
        i += 1;
    }
    assert(window =~= lists::rows(pattern@));
    true
}

/// All the places at which `file` holds `pattern`, in order.
fn row_places(file: &Vec<Vec<char>>, pattern: &Vec<Vec<char>>) -> (r: Vec<usize>)
    ensures
        r@ == places(lists::rows(file@), lists::rows(pattern@)),
{
    let mut out: Vec<usize> = Vec::new();
    let mut at: usize = 0;
    while at < file.len()
        invariant
            0 <= at <= file@.len(),
            out@ == places_below(lists::rows(file@), lists::rows(pattern@), at as int),
        decreases file@.len() - at,
    {
        if rows_hold(file, pattern, at) {
            out.push(at);
        }
        at += 1;
    }
    if rows_hold(file, pattern, at) {
        out.push(at);
    }
    out
}

/// The places at which the file holds the pattern but for white space at the ends of lines.
pub fn find_matches_exact(file_lines: &Vec<String>, pattern: &Vec<String>) -> (r: Vec<usize>)
    ensures
        r@ == exact_places(lists::texts(file_lines@), lists::texts(pattern@)),
{
    if pattern.len() == 0 {
        return Vec::new();
    }
    row_places(&trim_each(file_lines), &trim_each(pattern))
}

/// The places at which the file holds the pattern but for the amount of white space.
fn find_matches_squashed(file_lines: &Vec<String>, pattern: &Vec<String>) -> (r: Vec<usize>)
    ensures
        r@ == squashed_places(lists::texts(file_lines@), lists::texts(pattern@)),
{
    row_places(&squash_each(file_lines), &squash_each(pattern))
}

// ---------------------------------------------------------------------------
// Lines that are similar
// ---------------------------------------------------------------------------

/// Lines as a text in which each line is ended.
pub open spec fn block_text(lines: Seq<Seq<char>>) -> Seq<char> {
    text::join(lines, "\n"@) + "\n"@
}

/// How similar the lines of `file` from `at` on are to `pattern`.
pub open spec fn window_similarity(
    file: Seq<Seq<char>>,
    pattern: Seq<Seq<char>>,
    at: int,
) -> Similarity {
    similarity::similarity_spec(
        block_text(pattern),
        block_text(file.subrange(at, at + pattern.len())),
    )
}

/// How many windows of the length of `pattern` the file has.
pub open spec fn window_count(file: Seq<Seq<char>>, pattern: Seq<Seq<char>>) -> nat {
    if pattern.len() <= file.len() {
        (file.len() - pattern.len() + 1) as nat
    } else {
        0
    }
}

/// How similar each window of the file is to `pattern`.
pub open spec fn window_similarities(file: Seq<Seq<char>>, pattern: Seq<Seq<char>>) -> Seq<
    Similarity,
> {
    Seq::new(window_count(file, pattern), |at: int| window_similarity(file, pattern, at))
}

/// The first of the most similar of the first `upto` places, of those that are similar enough.
pub open spec fn nearest_below(list: Seq<Similarity>, t: Threshold, upto: int) -> Option<int>
    decreases upto,
{
    if upto <= 0 {
        None
    } else {
        let best = nearest_below(list, t, upto - 1);
        if list[upto - 1].reaches(t) && (best is None || list[best->0].below(list[upto - 1])) {
            Some(upto - 1)
        } else {
            best
        }
    }
}

/// The first of the most similar places, of those that are similar enough.
pub open spec fn nearest_of(list: Seq<Similarity>, t: Threshold) -> Option<int> {
    nearest_below(list, t, list.len() as int)
}

/// The longest file, in lines, that is searched for similar lines.
pub const FUZZY_FILE_LINES: usize = 2000;

/// The shortest pattern, in lines, that similar lines are searched for.
pub const FUZZY_PATTERN_LINES: usize = 3;

/// Where a pattern was found, and how.
#[verifier::ext_equal]
pub struct Found {
    pub places: Seq<usize>,
    pub how: Seq<char>,
}

/// How a place found by similarity is labelled.
pub open spec fn fuzzy_label(percent: int) -> Seq<char> {
    "fuzzy:"@ + numbers::decimal(percent as nat) + "%"@
}

/// Where `pattern` is in `file`: at the places that hold it exactly; if there are none, at
/// those that hold it but for the amount of white space; if there are none and the pattern is
/// long and the file is short enough, at the place that is most similar to it.
pub open spec fn found(file: Seq<Seq<char>>, pattern: Seq<Seq<char>>, t: Threshold) -> Found {
    let exact = exact_places(file, pattern);
    let squashed = squashed_places(file, pattern);
    let windows = window_similarities(file, pattern);
    let nearest = nearest_of(windows, t);
    if pattern.len() == 0 {
        Found { places: Seq::empty(), how: "none"@ }
    } else if exact.len() > 0 {
        Found { places: exact, how: "exact"@ }
    } else if squashed.len() > 0 {
        Found { places: squashed, how: "normalized"@ }
    } else if pattern.len() < FUZZY_PATTERN_LINES || file.len() > FUZZY_FILE_LINES
        || nearest is None {
        Found { places: Seq::empty(), how: "none"@ }
    } else {
        Found {
            places: seq![nearest->0 as usize],
            how: fuzzy_label(windows[nearest->0].percent()),
        }
    }
}

/// The lines from `from` to `to` as a text in which each line is ended.
fn block_of(v: &Vec<String>, from: usize, to: usize) -> (r: String)
    requires
        from <= to <= v@.len(),
    ensures
        r@ == block_text(lists::texts(v@).subrange(from as int, to as int)),
{
    let part = slice_texts(v, from, to);
    let mut out = join_texts(&part, "\n");
    out.append("\n");
    out
}

/// A copy of the strings from `from` to `to`.
pub fn slice_texts(v: &Vec<String>, from: usize, to: usize) -> (r: Vec<String>)
    requires
        from <= to <= v@.len(),
    ensures
        lists::texts(r@) == lists::texts(v@).subrange(from as int, to as int),
{
    let mut out: Vec<String> = Vec::new();
    let mut i: usize = from;
    while i < to
        invariant
            from <= i <= to <= v@.len(),
            lists::texts(out@) == lists::texts(v@).subrange(from as int, i as int),
        decreases to - i,
    {
        out.push(v[i].clone());
        i += 1;
        assert(lists::texts(out@) =~= lists::texts(v@).subrange(from as int, i as int));
    }
    out
}

/// The nearest place is similar enough, and no place is more similar; there is none exactly where
/// no place is similar enough.
pub proof fn law_nearest_is_best(list: Seq<Similarity>, t: Threshold, upto: int)
    requires
        0 <= upto <= list.len(),
    ensures
        nearest_below(list, t, upto) matches Some(best) ==> {
            &&& 0 <= best < upto
            &&& list[best].reaches(t)
            &&& forall|at: int|
                0 <= at < upto && (#[trigger] list[at]).reaches(t) ==> !list[best].below(list[at])
        },
        nearest_below(list, t, upto) is None ==> (forall|at: int|
            0 <= at < upto ==> !(#[trigger] list[at]).reaches(t)),
    decreases upto,
{
    if upto > 0 {
        law_nearest_is_best(list, t, upto - 1);
        let before = nearest_below(list, t, upto - 1);
        let best = nearest_below(list, t, upto);
        if best is Some && best != before {
            let new = list[upto - 1];
            assert forall|at: int| 0 <= at < upto && (#[trigger] list[at]).reaches(t) implies !new.below(
                list[at],
            ) by {
                if at < upto - 1 {
                    similarity::lemma_below(list[before->0], new, list[at]);
                } else {
                    similarity::lemma_not_below_itself(new);
                }
            }
        }
    }
}

/// The first of the most similar places, of those that are similar enough.
pub fn most_similar(list: &Vec<Similarity>, t: Threshold) -> (r: Option<usize>)
    requires
        t.wf(),
    ensures
        match r {
            Some(at) => nearest_of(list@, t) == Some(at as int) && at < list@.len(),
            None => nearest_of(list@, t) is None,
        },
{
    let mut best: Option<usize> = None;
    let mut at: usize = 0;
    while at < list.len()
        invariant
            0 <= at <= list@.len(),
            t.wf(),
            match best {
                Some(b) => nearest_below(list@, t, at as int) == Some(b as int) && b < at,
                None => nearest_below(list@, t, at as int) is None,
            },
        decreases list@.len() - at,
    {
        if list[at].meets(t) {
            let better = match best {
                None => true,
                Some(b) => list[b].is_below(&list[at]),
            };
            if better {
                best = Some(at);
            }
        }
        at += 1;
    }
    best
}

/// How similar each window of the file is to the pattern.
fn similarity_of_windows(file_lines: &Vec<String>, pattern: &Vec<String>) -> (r: Vec<Similarity>)
    requires
        pattern@.len() > 0,
    ensures
        r@ == window_similarities(lists::texts(file_lines@), lists::texts(pattern@)),
        forall|i: int| 0 <= i < r@.len() ==> (#[trigger] r@[i]).wf(),
{
    let ghost file = lists::texts(file_lines@);
    let ghost wanted = lists::texts(pattern@);
    let target = block_of(pattern, 0, pattern.len());
    assert(wanted.subrange(0, wanted.len() as int) =~= wanted);
    let n: usize = file_lines.len();
    let m: usize = pattern.len();
    let mut out: Vec<Similarity> = Vec::new();
    let mut at: usize = 0;
    assert(out@ =~= window_similarities(file, wanted).take(0));
    while at < n && m <= n - at
        invariant
            0 <= at <= n == file_lines@.len(),
            m == pattern@.len() > 0,
            file == lists::texts(file_lines@),
            wanted == lists::texts(pattern@),
            target@ == block_text(wanted),
            at <= window_count(file, wanted),
            out@ == window_similarities(file, wanted).take(at as int),
            forall|i: int| 0 <= i < out@.len() ==> (#[trigger] out@[i]).wf(),
        decreases n - at,
    {
        let window = block_of(file_lines, at, at + m);
        let s = similarity(target.as_str(), window.as_str());
        assert(s == window_similarity(file, wanted, at as int));
        out.push(s);
        at += 1;
        assert(out@ =~= window_similarities(file, wanted).take(at as int));
    }
    assert(out@ =~= window_similarities(file, wanted));
    out
}

/// Where the pattern is in the file, and how it was found.
pub fn find_matches_with_type(
    file_lines: &Vec<String>,
    pattern: &Vec<String>,
    t: Threshold,
) -> (r: (Vec<usize>, String))
    requires
        t.wf(),
    ensures
        (Found { places: r.0@, how: r.1@ }) == found(
            lists::texts(file_lines@),
            lists::texts(pattern@),
            t,
        ),
{
    if pattern.len() == 0 {
        return (Vec::new(), "none".to_owned());
    }
    let exact = find_matches_exact(file_lines, pattern);
    if exact.len() > 0 {
        return (exact, "exact".to_owned());
    }
    let squashed = find_matches_squashed(file_lines, pattern);
    if squashed.len() > 0 {
        return (squashed, "normalized".to_owned());
    }
    if pattern.len() < FUZZY_PATTERN_LINES || file_lines.len() > FUZZY_FILE_LINES {
        return (Vec::new(), "none".to_owned());
    }
    let windows = similarity_of_windows(file_lines, pattern);
    match most_similar(&windows, t) {
        None => (Vec::new(), "none".to_owned()),
        Some(best) => {
            let mut places: Vec<usize> = Vec::new();
            places.push(best);
            assert(places@ =~= seq![best]);
            let percent: usize = windows[best].in_percent();
            (places, cat3("fuzzy:", decimal_of(percent).as_str(), "%"))
        },
    }
}

/// Where the pattern is in the file.
pub fn find_matches(file_lines: &Vec<String>, pattern: &Vec<String>, t: Threshold) -> (r: Vec<usize>)
    requires
        t.wf(),
    ensures
        r@ == found(lists::texts(file_lines@), lists::texts(pattern@), t).places,
{
    find_matches_with_type(file_lines, pattern, t).0
}

} // verus!
