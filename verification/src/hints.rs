//! Hints: text near the place that a hunk is meant for.

use vstd::prelude::*;
use vstd::string::*;

use crate::lists;
use crate::matching;
use crate::matching::{find_matches_exact, slice_texts};
use crate::text;
use crate::text::{chars_of, holds_at, place_of, text_of};

verus! {

broadcast use crate::lists::group_lists;

// ---------------------------------------------------------------------------
// Characters of the standard library
// ---------------------------------------------------------------------------

/// Whether a character is a letter or a digit, by `char::is_alphanumeric`.
pub uninterp spec fn alphanumeric(c: char) -> bool;

/// Whether a character is a letter or a digit of ASCII.
pub open spec fn ascii_alphanumeric(c: char) -> bool {
    ('a' <= c <= 'z') || ('A' <= c <= 'Z') || ('0' <= c <= '9')
}

/// `char::is_alphanumeric`: a property of the character alone. Of the ASCII characters, the
/// letters and the digits have it.
pub assume_specification[ char::is_alphanumeric ](c: char) -> (r: bool)
    ensures
        r == alphanumeric(c),
        c as int <= 127 ==> r == ascii_alphanumeric(c),
;

/// A text in lower case, by `str::to_lowercase`.
pub uninterp spec fn lowercase(s: Seq<char>) -> Seq<char>;

/// Whether a text holds ASCII characters only.
pub open spec fn ascii_only(s: Seq<char>) -> bool {
    forall|i: int| 0 <= i < s.len() ==> s[i] as int <= 127
}

/// `str::to_lowercase`: a function of the text alone. A text of ASCII characters is lowered
/// letter by letter.
pub assume_specification[ str::to_lowercase ](s: &str) -> (r: String)
    ensures
        r@ == lowercase(s@),
        ascii_only(s@) ==> r@ == text::ascii_lower_text(s@),
;

// ---------------------------------------------------------------------------
// Lines with a hint
// ---------------------------------------------------------------------------

/// Whether a character can go on a word.
pub open spec fn word_char(c: char) -> bool {
    alphanumeric(c) || c == '_'
}

/// Whether `hint` is at the place `at` of `line`, and no character behind it goes on the word.
pub open spec fn ends_word_at(line: Seq<char>, hint: Seq<char>, at: int) -> bool {
    &&& 0 <= at <= line.len()
    &&& text::starts_with(line.skip(at), hint)
    &&& at + hint.len() == line.len() || !word_char(line[at + hint.len()])
}

/// Whether `line` has `hint` at the end of a word.
pub open spec fn boundary_hit(line: Seq<char>, hint: Seq<char>) -> bool {
    exists|at: int| #[trigger] ends_word_at(line, hint, at)
}

/// Whether a line has the hint: at the end of a word where `boundary` asks for that, else
/// anywhere.
pub open spec fn has_hint(line: Seq<char>, hint: Seq<char>, boundary: bool) -> bool {
    if boundary {
        boundary_hit(line, hint)
    } else {
        text::contains(line, hint)
    }
}

/// The text of a hint, and whether it asks for the end of a word, with a `$` at its end.
pub open spec fn hint_parts(hint: Seq<char>) -> (Seq<char>, bool) {
    if hint.len() > 0 && hint.last() == '$' {
        (hint.drop_last(), true)
    } else {
        (hint, false)
    }
}

/// The text of a hint, and whether it asks for the end of a word.
pub fn word_boundary_match(hint: &str) -> (r: (String, bool))
    ensures
        (r.0@, r.1) == hint_parts(hint@),
{
    let v = chars_of(hint);
    let n: usize = v.len();
    if n > 0 && v[n - 1] == '$' {
        let stripped = text_of(&v, 0, n - 1);
        assert(stripped@ =~= hint@.drop_last());
        (stripped, true)
    } else {
        (hint.to_owned(), false)
    }
}

/// Whether the line has the hint at the end of a word.
pub fn hint_matches_at_word_boundary(line: &str, hint: &str) -> (r: bool)
    ensures
        r == boundary_hit(line@, hint@),
{
    let v = chars_of(line);
    let h = chars_of(hint);
    let n: usize = v.len();
    let m: usize = h.len();
    if m > n {
        return false;
    }
    let mut at: usize = 0;
    while at < n - m
        invariant
            0 <= at <= n - m,
            v@ == line@,
            h@ == hint@,
            n == v@.len(),
            m == h@.len(),
            m <= n,
            forall|k: int| 0 <= k < at ==> !#[trigger] ends_word_at(line@, hint@, k),
        decreases n - m - at,
    {
        if holds_at(&v, at, &h) {
            let c = v[at + m];
            if !c.is_alphanumeric() && c != '_' {
                assert(ends_word_at(line@, hint@, at as int));
                return true;
            }
        }
        assert(!ends_word_at(line@, hint@, at as int));
        at += 1;
    }
    let last = holds_at(&v, at, &h);
    assert(last == ends_word_at(line@, hint@, at as int));
    last
}

/// Whether a line has the hint.
fn line_has_hint(line: &str, hint: &str, boundary: bool) -> (r: bool)
    ensures
        r == has_hint(line@, hint@, boundary),
{
    if boundary {
        hint_matches_at_word_boundary(line, hint)
    } else {
        place_of(&chars_of(line), &chars_of(hint)).is_some()
    }
}

/// The lines in lower case.
pub open spec fn lowered(lines: Seq<Seq<char>>) -> Seq<Seq<char>> {
    lines.map_values(|l: Seq<char>| lowercase(l))
}

/// The first of the lines from `from` on that has the hint.
pub open spec fn hint_line(
    lines: Seq<Seq<char>>,
    hint: Seq<char>,
    boundary: bool,
    from: int,
) -> Option<int>
    decreases lines.len() - from,
{
    if from < 0 || from >= lines.len() {
        None
    } else if has_hint(lines[from], hint, boundary) {
        Some(from)
    } else {
        hint_line(lines, hint, boundary, from + 1)
    }
}

/// The first line with the hint.
fn first_hint_line(lines: &Vec<String>, hint: &str, boundary: bool) -> (r: Option<usize>)
    ensures
        match r {
            Some(k) => hint_line(lists::texts(lines@), hint@, boundary, 0) == Some(k as int) && k
                < lines@.len(),
            None => hint_line(lists::texts(lines@), hint@, boundary, 0) is None,
        },
{
    let mut i: usize = 0;
    while i < lines.len()
        invariant
            0 <= i <= lines@.len(),
            hint_line(lists::texts(lines@), hint@, boundary, 0) == hint_line(
                lists::texts(lines@),
                hint@,
                boundary,
                i as int,
            ),
        decreases lines@.len() - i,
    {
        if line_has_hint(lines[i].as_str(), hint, boundary) {
            return Some(i);
        }
        i += 1;
    }
    None
}

/// The lines in lower case.
fn lower_each(lines: &Vec<String>) -> (r: Vec<String>)
    ensures
        lists::texts(r@) == lowered(lists::texts(lines@)),
{
    let mut out: Vec<String> = Vec::new();
    let mut i: usize = 0;
    while i < lines.len()
        invariant
            0 <= i <= lines@.len(),
            lists::texts(out@) == lowered(lists::texts(lines@)).take(i as int),
        decreases lines@.len() - i,
    {
        out.push(lines[i].as_str().to_lowercase());
        i += 1;
        assert(lists::texts(out@) =~= lowered(lists::texts(lines@)).take(i as int));
    }
    assert(lists::texts(out@) =~= lowered(lists::texts(lines@)));
    out
}

// ---------------------------------------------------------------------------
// Searching near a hint
// ---------------------------------------------------------------------------

/// The least number of lines that are searched near a hint.
pub const WINDOW_LINES: usize = 60;

/// How many lines are searched near a hint in a file of `n` lines.
pub open spec fn window_size(n: int) -> int {
    if n / 5 > WINDOW_LINES {
        n / 5
    } else {
        WINDOW_LINES as int
    }
}

/// The first line that is searched near the line `at`.
pub open spec fn window_start(n: int, at: int) -> int {
    if at >= window_size(n) / 2 {
        at - window_size(n) / 2
    } else {
        0
    }
}

/// The end of the lines that are searched near the line `at`.
pub open spec fn window_end(n: int, at: int) -> int {
    if window_start(n, at) + window_size(n) < n {
        window_start(n, at) + window_size(n)
    } else {
        n
    }
}

/// The first of the places from `k` on that is not before `at`.
pub open spec fn first_not_before(places: Seq<usize>, at: int, k: int) -> Option<int>
    decreases places.len() - k,
{
    if k < 0 || k >= places.len() {
        None
    } else if places[k] >= at {
        Some(places[k] as int)
    } else {
        first_not_before(places, at, k + 1)
    }
}

/// Where `pattern` is in `file` near the line `at`: at the first place that is not before it,
/// else at the last place before it.
pub open spec fn place_in_window(
    file: Seq<Seq<char>>,
    pattern: Seq<Seq<char>>,
    at: int,
) -> Option<int> {
    let start = window_start(file.len() as int, at);
    let end = window_end(file.len() as int, at);
    let places = matching::exact_places(file.subrange(start, end), pattern);
    if places.len() == 0 {
        None
    } else {
        match first_not_before(places, at - start, 0) {
            Some(k) => Some(start + k),
            None => Some(start + places.last()),
        }
    }
}

/// Where `pattern` is in `file` near the first line with the hint, with its case, or else in
/// any case.
pub open spec fn place_by_hint(
    file: Seq<Seq<char>>,
    pattern: Seq<Seq<char>>,
    hint: Seq<char>,
) -> Option<int> {
    let (wanted, boundary) = hint_parts(hint);
    match hint_line(file, wanted, boundary, 0) {
        Some(at) => place_in_window(file, pattern, at),
        None => match hint_line(lowered(file), lowercase(wanted), boundary, 0) {
            Some(at) => place_in_window(file, pattern, at),
            None => None,
        },
    }
}

/// Where the pattern is near the line `hint_line_pos`.
pub fn find_in_window(
    file_lines: &Vec<String>,
    pattern: &Vec<String>,
    hint_line_pos: usize,
) -> (r: Option<usize>)
    requires
        hint_line_pos < file_lines@.len(),
    ensures
        match r {
            Some(k) => place_in_window(
                lists::texts(file_lines@),
                lists::texts(pattern@),
                hint_line_pos as int,
            ) == Some(k as int),
            None => place_in_window(
                lists::texts(file_lines@),
                lists::texts(pattern@),
                hint_line_pos as int,
            ) is None,
        },
        r is Some ==> r->0 + pattern@.len() <= file_lines@.len(),
{
    let ghost file = lists::texts(file_lines@);
    let ghost wanted = lists::texts(pattern@);
    let n: usize = file_lines.len();
    let size: usize = if n / 5 > WINDOW_LINES {
        n / 5
    } else {
        WINDOW_LINES
    };
    let start: usize = if hint_line_pos >= size / 2 {
        hint_line_pos - size / 2
    } else {
        0
    };
    let end: usize = if size < n - start {
        start + size
    } else {
        n
    };
    let window = slice_texts(file_lines, start, end);
    let places = find_matches_exact(&window, pattern);
    assert(places@ == matching::exact_places(file.subrange(start as int, end as int), wanted));
    proof {
        if wanted.len() > 0 {
            let w = matching::trimmed_lines(lists::texts(window@));
            matching::law_places_are_complete(
                w,
                matching::trimmed_lines(wanted),
                w.len() as int + 1,
            );
        }
    }
    assert(forall|i: int| 0 <= i < places@.len() ==> places@[i] + wanted.len() <= end - start);
    if places.len() == 0 {
        return None;
    }
    let from: usize = hint_line_pos - start;
    let mut k: usize = 0;
    while k < places.len()
        invariant
            0 <= k <= places@.len(),
            from == hint_line_pos - start,
            start <= end <= n == file_lines@.len(),
            file == lists::texts(file_lines@),
            wanted == lists::texts(pattern@),
            places@.len() > 0,
            start == window_start(n as int, hint_line_pos as int),
            end == window_end(n as int, hint_line_pos as int),
            places@ == matching::exact_places(file.subrange(start as int, end as int), wanted),
            first_not_before(places@, from as int, 0) == first_not_before(
                places@,
                from as int,
                k as int,
            ),
            forall|i: int| 0 <= i < places@.len() ==> places@[i] + wanted.len() <= end - start,
        decreases places@.len() - k,
    {
        if places[k] >= from {
            return Some(start + places[k]);
        }
        k += 1;
    }
    let last: usize = places[places.len() - 1];
    Some(start + last)
}

/// Where the pattern is near the first line with the hint.
pub fn find_with_hint(file_lines: &Vec<String>, pattern: &Vec<String>, hint: &str) -> (r: Option<
    usize,
>)
    ensures
        match r {
            Some(k) => place_by_hint(lists::texts(file_lines@), lists::texts(pattern@), hint@)
                == Some(k as int),
            None => place_by_hint(
                lists::texts(file_lines@),
                lists::texts(pattern@),
                hint@,
            ) is None,
        },
        r is Some ==> r->0 + pattern@.len() <= file_lines@.len(),
{
    let (wanted, boundary) = word_boundary_match(hint);
    match first_hint_line(file_lines, wanted.as_str(), boundary) {
        Some(at) => find_in_window(file_lines, pattern, at),
        None => {
            let lower_lines = lower_each(file_lines);
            let lower_hint = wanted.as_str().to_lowercase();
            match first_hint_line(&lower_lines, lower_hint.as_str(), boundary) {
                Some(at) => {
                    assert(lower_lines@.len() == lists::texts(lower_lines@).len());
                    assert(file_lines@.len() == lists::texts(file_lines@).len());
                    find_in_window(file_lines, pattern, at)
                },
                None => None,
            }
        },
    }
}

// ---------------------------------------------------------------------------
// Choosing between places by a hint
// ---------------------------------------------------------------------------

/// How far a match at `place`, `len` lines long, is from a hint in the line `hint`.
pub open spec fn hint_distance(place: int, len: int, hint: int) -> int {
    if place >= hint {
        place - hint
    } else if hint < place + len {
        0
    } else {
        hint - (place + len)
    }
}

/// The better of a choice and a match at `place`, for a hint in the line `hint`. A choice is
/// the distance of a match, and the match. The new match is taken if it is nearer, or as near
/// and not before the hint where the other is before it.
pub open spec fn better_choice(
    best: Option<(int, int)>,
    place: int,
    len: int,
    hint: int,
) -> Option<(int, int)> {
    let d = hint_distance(place, len, hint);
    match best {
        None => Some((d, place)),
        Some((bd, bp)) => if d < bd || (d == bd && place >= hint && bp < hint) {
            Some((d, place))
        } else {
            best
        },
    }
}

/// The choice after a match has been held against the hints in the lines below `upto`.
pub open spec fn choice_for_place(
    file: Seq<Seq<char>>,
    hint: Seq<char>,
    boundary: bool,
    place: int,
    len: int,
    best: Option<(int, int)>,
    upto: int,
) -> Option<(int, int)>
    decreases upto,
{
    if upto <= 0 {
        best
    } else {
        let before = choice_for_place(file, hint, boundary, place, len, best, upto - 1);
        if has_hint(file[upto - 1], hint, boundary) {
            better_choice(before, place, len, upto - 1)
        } else {
            before
        }
    }
}

/// The choice among the first `k` matches.
pub open spec fn choice_among(
    file: Seq<Seq<char>>,
    hint: Seq<char>,
    boundary: bool,
    places: Seq<usize>,
    len: int,
    k: int,
) -> Option<(int, int)>
    decreases k,
{
    if k <= 0 {
        None
    } else {
        choice_for_place(
            file,
            hint,
            boundary,
            places[k - 1] as int,
            len,
            choice_among(file, hint, boundary, places, len, k - 1),
            file.len() as int,
        )
    }
}

/// The match that a hint picks. A hint with a `$` at its end means lines in which it ends a word.
pub open spec fn picked(
    file: Seq<Seq<char>>,
    hint: Seq<char>,
    places: Seq<usize>,
    len: int,
) -> Option<int> {
    let (stripped, boundary) = hint_parts(hint);
    match choice_among(file, stripped, boundary, places, len, places.len() as int) {
        Some((_, place)) => Some(place),
        None => None,
    }
}

/// A choice as plain numbers.
struct Choice {
    distance: usize,
    place: usize,
}

/// A choice as mathematical numbers.
spec fn choice_view(c: Option<Choice>) -> Option<(int, int)> {
    match c {
        Some(c) => Some((c.distance as int, c.place as int)),
        None => None,
    }
}

/// The match that the hint picks: the one nearest to a line with the hint.
pub fn pick_by_hint(
    file_lines: &Vec<String>,
    matches: &Vec<usize>,
    hint: &str,
    pattern_len: usize,
) -> (r: Option<usize>)
    requires
        forall|i: int| 0 <= i < matches@.len() ==> matches@[i] + pattern_len <= usize::MAX,
    ensures
        match r {
            Some(k) => picked(lists::texts(file_lines@), hint@, matches@, pattern_len as int)
                == Some(k as int),
            None => picked(lists::texts(file_lines@), hint@, matches@, pattern_len as int) is None,
        },
        r is Some ==> matches@.contains(r->0),
{
    let ghost file = lists::texts(file_lines@);
    let (stripped, boundary) = word_boundary_match(hint);
    let n: usize = file_lines.len();
    let mut best: Option<Choice> = None;
    let mut k: usize = 0;
    while k < matches.len()
        invariant
            0 <= k <= matches@.len(),
            n == file_lines@.len(),
            file == lists::texts(file_lines@),
            (stripped@, boundary) == hint_parts(hint@),
            forall|i: int|
                0 <= i < matches@.len() ==> matches@[i] + pattern_len <= usize::MAX,
            choice_view(best) == choice_among(
                file,
                stripped@,
                boundary,
                matches@,
                pattern_len as int,
                k as int,
            ),
            best is Some ==> matches@.contains(best->0.place),
        decreases matches@.len() - k,
    {
        let place: usize = matches[k];
        let ghost before = choice_view(best);
        let mut i: usize = 0;
        while i < n
            invariant
                0 <= i <= n == file_lines@.len(),
                0 <= k < matches@.len(),
                place == matches@[k as int],
                place + pattern_len <= usize::MAX,
                file == lists::texts(file_lines@),
                (stripped@, boundary) == hint_parts(hint@),
                choice_view(best) == choice_for_place(
                    file,
                    stripped@,
                    boundary,
                    place as int,
                    pattern_len as int,
                    before,
                    i as int,
                ),
                best is Some ==> matches@.contains(best->0.place),
            decreases n - i,
        {
            if line_has_hint(file_lines[i].as_str(), stripped.as_str(), boundary) {
                let distance: usize = if place >= i {
                    place - i
                } else if i < place + pattern_len {
                    0
                } else {
                    i - (place + pattern_len)
                };
                let better = match &best {
                    None => true,
                    Some(b) => distance < b.distance || (distance == b.distance && place >= i
                        && b.place < i),
                };
                if better {
                    best = Some(Choice { distance, place });
                }
            }
            i += 1;
        }
        k += 1;
    }
    match best {
        Some(b) => Some(b.place),
        None => None,
    }
}

/// The place that a hint leads to has room for the pattern.
pub proof fn lemma_place_by_hint_fits(
    file: Seq<Seq<char>>,
    pattern: Seq<Seq<char>>,
    hint: Seq<char>,
)
    requires
        file.len() <= usize::MAX,
    ensures
        place_by_hint(file, pattern, hint) matches Some(at) ==> 0 <= at && at + pattern.len()
            <= file.len(),
{
    let (wanted, boundary) = hint_parts(hint);
    lemma_hint_line(file, wanted, boundary, 0);
    lemma_hint_line(lowered(file), lowercase(wanted), boundary, 0);
    if let Some(at) = hint_line(file, wanted, boundary, 0) {
        lemma_place_in_window_fits(file, pattern, at);
    } else if let Some(at) = hint_line(lowered(file), lowercase(wanted), boundary, 0) {
        lemma_place_in_window_fits(file, pattern, at);
    }
}

/// A line with a hint is a line of the file.
pub proof fn lemma_hint_line(lines: Seq<Seq<char>>, hint: Seq<char>, boundary: bool, from: int)
    requires
        0 <= from,
    ensures
        hint_line(lines, hint, boundary, from) matches Some(at) ==> from <= at < lines.len()
            && has_hint(lines[at], hint, boundary),
    decreases lines.len() - from,
{
    if from < lines.len() && !has_hint(lines[from], hint, boundary) {
        lemma_hint_line(lines, hint, boundary, from + 1);
    }
}

/// A place near a line has room for the pattern.
proof fn lemma_place_in_window_fits(file: Seq<Seq<char>>, pattern: Seq<Seq<char>>, at: int)
    requires
        file.len() <= usize::MAX,
        0 <= at < file.len(),
    ensures
        place_in_window(file, pattern, at) matches Some(p) ==> 0 <= p && p + pattern.len()
            <= file.len(),
{
    let n = file.len() as int;
    let start = window_start(n, at);
    let end = window_end(n, at);
    let window = file.subrange(start, end);
    let places = matching::exact_places(window, pattern);
    if pattern.len() > 0 {
        matching::law_places_are_complete(
            matching::trimmed_lines(window),
            matching::trimmed_lines(pattern),
            window.len() as int + 1,
        );
        lemma_first_not_before(places, at - start, 0);
    }
}

/// A place that is not before a line is one of the places.
proof fn lemma_first_not_before(places: Seq<usize>, at: int, k: int)
    requires
        0 <= k,
    ensures
        first_not_before(places, at, k) matches Some(p) ==> exists|i: int|
            k <= i < places.len() && places[i] == p,
    decreases places.len() - k,
{
    if k < places.len() && places[k] < at {
        lemma_first_not_before(places, at, k + 1);
    }
}

/// The match that a hint picks is one of the matches.
pub proof fn law_hint_picks_a_match(
    file: Seq<Seq<char>>,
    hint: Seq<char>,
    places: Seq<usize>,
    len: int,
)
    ensures
        picked(file, hint, places, len) matches Some(p) ==> exists|i: int|
            0 <= i < places.len() && places[i] == p,
{
    let (stripped, boundary) = hint_parts(hint);
    lemma_choice_among(file, stripped, boundary, places, len, places.len() as int);
}

/// A hint picks a match wherever there is one and a line has the hint, and no match is nearer to
/// such a line than the one that it picks.
pub proof fn law_hint_picks_the_nearest(
    file: Seq<Seq<char>>,
    hint: Seq<char>,
    places: Seq<usize>,
    len: int,
)
    ensures
        ({
            let (stripped, boundary) = hint_parts(hint);
            match picked(file, hint, places, len) {
                None => places.len() == 0 || forall|h: int|
                    0 <= h < file.len() ==> !has_hint(#[trigger] file[h], stripped, boundary),
                Some(p) => exists|h: int|
                    0 <= h < file.len() && has_hint(#[trigger] file[h], stripped, boundary) && (
                    forall|i: int, k: int|
                        #![trigger places[i], file[k]]
                        0 <= i < places.len() && 0 <= k < file.len() && has_hint(
                            file[k],
                            stripped,
                            boundary,
                        ) ==> hint_distance(p, len, h) <= hint_distance(
                            places[i] as int,
                            len,
                            k,
                        )),
            }
        }),
        places.len() > 0 && (exists|h: int|
            0 <= h < file.len() && has_hint(
                #[trigger] file[h],
                hint_parts(hint).0,
                hint_parts(hint).1,
            )) ==> picked(file, hint, places, len) is Some,
{
    let (stripped, boundary) = hint_parts(hint);
    lemma_nearest_among(file, stripped, boundary, places, len, places.len() as int);
    let best = choice_among(file, stripped, boundary, places, len, places.len() as int);
    if places.len() > 0 && exists|h: int|
        0 <= h < file.len() && has_hint(#[trigger] file[h], stripped, boundary) {
        let h = choose|h: int|
            0 <= h < file.len() && has_hint(#[trigger] file[h], stripped, boundary);
        assert(covered(best, len, places[0] as int, h));
    }
    if let Some((d, p)) = best {
        let h = choose|h: int|
            0 <= h < file.len() && has_hint(#[trigger] file[h], stripped, boundary)
                && hint_distance(p, len, h) == d;
        assert(has_hint(file[h], stripped, boundary));
        assert forall|i: int, k: int|
            #![trigger places[i], file[k]]
            0 <= i < places.len() && 0 <= k < file.len() && has_hint(
                file[k],
                stripped,
                boundary,
            ) implies hint_distance(p, len, h) <= hint_distance(places[i] as int, len, k) by {
            assert(covered(best, len, places[i] as int, k));
        }
    }
}

/// Whether a choice is as near as a match at `place` is to a hint in the line `hint`.
spec fn covered(best: Option<(int, int)>, len: int, place: int, hint: int) -> bool {
    best matches Some((d, _)) && d <= hint_distance(place, len, hint)
}

/// Whether the distance of a choice is that of its match from a line with the hint.
spec fn grounded(
    file: Seq<Seq<char>>,
    hint: Seq<char>,
    boundary: bool,
    len: int,
    best: Option<(int, int)>,
) -> bool {
    best matches Some((d, p)) ==> exists|h: int|
        0 <= h < file.len() && has_hint(#[trigger] file[h], hint, boundary) && hint_distance(
            p,
            len,
            h,
        ) == d
}

/// A choice among matches is as near as each of them.
proof fn lemma_nearest_among(
    file: Seq<Seq<char>>,
    hint: Seq<char>,
    boundary: bool,
    places: Seq<usize>,
    len: int,
    k: int,
)
    requires
        0 <= k <= places.len(),
    ensures
        ({
            let best = choice_among(file, hint, boundary, places, len, k);
            &&& grounded(file, hint, boundary, len, best)
            &&& forall|i: int, h: int|
                0 <= i < k && 0 <= h < file.len() && has_hint(file[h], hint, boundary)
                    ==> #[trigger] covered(best, len, places[i] as int, h)
        }),
    decreases k,
{
    if k > 0 {
        lemma_nearest_among(file, hint, boundary, places, len, k - 1);
        lemma_nearest_for_place(
            file,
            hint,
            boundary,
            places[k - 1] as int,
            len,
            choice_among(file, hint, boundary, places, len, k - 1),
            file.len() as int,
        );
        let before = choice_among(file, hint, boundary, places, len, k - 1);
        let best = choice_among(file, hint, boundary, places, len, k);
        assert forall|i: int, h: int|
            0 <= i < k && 0 <= h < file.len() && has_hint(
                file[h],
                hint,
                boundary,
            ) implies #[trigger] covered(best, len, places[i] as int, h) by {
            if i < k - 1 {
                assert(covered(before, len, places[i] as int, h));
            }
        }
    }
}

/// A choice with a match more is as near as the match, and no farther than before.
proof fn lemma_nearest_for_place(
    file: Seq<Seq<char>>,
    hint: Seq<char>,
    boundary: bool,
    place: int,
    len: int,
    best: Option<(int, int)>,
    upto: int,
)
    requires
        0 <= upto <= file.len(),
        grounded(file, hint, boundary, len, best),
    ensures
        ({
            let new = choice_for_place(file, hint, boundary, place, len, best, upto);
            &&& grounded(file, hint, boundary, len, new)
            &&& best matches Some((b, _)) ==> (new matches Some((d, _)) && d <= b)
            &&& forall|h: int|
                0 <= h < upto && has_hint(file[h], hint, boundary) ==> #[trigger] covered(
                    new,
                    len,
                    place,
                    h,
                )
        }),
    decreases upto,
{
    if upto > 0 {
        lemma_nearest_for_place(file, hint, boundary, place, len, best, upto - 1);
        let before = choice_for_place(file, hint, boundary, place, len, best, upto - 1);
        let new = choice_for_place(file, hint, boundary, place, len, best, upto);
        if has_hint(file[upto - 1], hint, boundary) {
            assert(covered(new, len, place, upto - 1));
        }
        assert forall|h: int|
            0 <= h < upto && has_hint(file[h], hint, boundary) implies #[trigger] covered(
            new,
            len,
            place,
            h,
        ) by {
            if h < upto - 1 {
                assert(covered(before, len, place, h));
            }
        }
    }
}

/// A choice among matches is one of them.
proof fn lemma_choice_among(
    file: Seq<Seq<char>>,
    hint: Seq<char>,
    boundary: bool,
    places: Seq<usize>,
    len: int,
    k: int,
)
    requires
        k <= places.len(),
    ensures
        choice_among(file, hint, boundary, places, len, k) matches Some((_, p)) ==> exists|i: int|
            0 <= i < k && places[i] == p,
    decreases k,
{
    if k > 0 {
        lemma_choice_among(file, hint, boundary, places, len, k - 1);
        lemma_choice_for_place(
            file,
            hint,
            boundary,
            places[k - 1] as int,
            len,
            choice_among(file, hint, boundary, places, len, k - 1),
            file.len() as int,
        );
    }
}

/// A choice is the new match or the choice before.
proof fn lemma_choice_for_place(
    file: Seq<Seq<char>>,
    hint: Seq<char>,
    boundary: bool,
    place: int,
    len: int,
    best: Option<(int, int)>,
    upto: int,
)
    ensures
        choice_for_place(file, hint, boundary, place, len, best, upto) matches Some((_, p)) ==> p == place
            || (best matches Some((_, b)) && p == b),
    decreases upto,
{
    if upto > 0 {
        lemma_choice_for_place(file, hint, boundary, place, len, best, upto - 1);
    }
}

} // verus!
