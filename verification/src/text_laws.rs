//! What holds of texts, said of their characters alone.

use vstd::prelude::*;

use crate::text;

verus! {

// ---------------------------------------------------------------------------
// Counting
// ---------------------------------------------------------------------------

/// How often a character is in a text.
pub open spec fn count(s: Seq<char>, c: char) -> int
    decreases s.len(),
{
    if s.len() == 0 {
        0
    } else {
        count(s.drop_last(), c) + (if s.last() == c {
            1int
        } else {
            0
        })
    }
}

/// The characters of two texts, counted.
pub proof fn lemma_count_sum(a: Seq<char>, b: Seq<char>, c: char)
    ensures
        count(a + b, c) == count(a, c) + count(b, c),
        count(a, c) >= 0,
        count(b, c) >= 0,
    decreases a.len() + b.len(),
{
    if b.len() > 0 {
        lemma_count_sum(a, b.drop_last(), c);
        assert((a + b).drop_last() =~= a + b.drop_last());
    } else {
        assert(a + b =~= a);
        if a.len() > 0 {
            lemma_count_sum(a.drop_last(), Seq::empty(), c);
            assert(a.drop_last() + Seq::<char>::empty() =~= a.drop_last());
        }
    }
}

/// A character that is not in a text is in it no times.
pub proof fn lemma_count_none(s: Seq<char>, c: char)
    ensures
        count(s, c) == 0 <==> !s.contains(c),
        count(s, c) >= 0,
    decreases s.len(),
{
    if s.len() > 0 {
        lemma_count_none(s.drop_last(), c);
        if s.contains(c) {
            let j = choose|j: int| 0 <= j < s.len() && s[j] == c;
            if j < s.len() - 1 {
                assert(s.drop_last()[j] == c);
            }
        }
        if s.drop_last().contains(c) {
            let j = choose|j: int| 0 <= j < s.drop_last().len() && s.drop_last()[j] == c;
            assert(s[j] == c);
        }
        if s.last() == c {
            assert(s[s.len() - 1] == c);
        }
    }
}

/// One character, counted.
pub proof fn lemma_count_one(x: char, c: char)
    ensures
        count(seq![x], c) == (if x == c {
            1int
        } else {
            0
        }),
{
    assert(seq![x].drop_last() =~= Seq::<char>::empty());
    reveal_with_fuel(count, 2);
}

// ---------------------------------------------------------------------------
// White space
// ---------------------------------------------------------------------------

/// Whether all characters of a text are white space.
pub open spec fn blank(s: Seq<char>) -> bool {
    forall|i: int| 0 <= i < s.len() ==> text::is_space(#[trigger] s[i])
}

/// Whether no character of a text is white space.
pub open spec fn solid(s: Seq<char>) -> bool {
    forall|i: int| 0 <= i < s.len() ==> !text::is_space(#[trigger] s[i])
}

/// The white space in ASCII: the tab, the line feed, the vertical tab, the form feed, the carriage
/// return and the space. No letter, digit or other sign is.
pub proof fn law_ascii_space(c: char)
    requires
        c < '\u{80}',
    ensures
        text::is_space(c) <==> (c == '\t' || c == '\n' || c == '\u{b}' || c == '\u{c}' || c == '\r'
            || c == ' '),
{
}

/// What is cut off the start of a text is white space, and what is left starts with none.
pub proof fn law_trimmed_start(s: Seq<char>)
    ensures
        text::trim_start(s).len() <= s.len(),
        s.skip(s.len() - text::trim_start(s).len()) == text::trim_start(s),
        blank(s.take(s.len() - text::trim_start(s).len())),
        text::trim_start(s).len() > 0 ==> !text::is_space(text::trim_start(s)[0]),
    decreases s.len(),
{
    if s.len() > 0 && text::is_space(s[0]) {
        law_trimmed_start(s.skip(1));
        let t = text::trim_start(s);
        let n = s.len() - t.len();
        assert(s.skip(1).skip(n - 1) =~= s.skip(n));
        assert forall|i: int| 0 <= i < n implies text::is_space(#[trigger] s.take(n)[i]) by {
            if i > 0 {
                assert(s.skip(1).take(n - 1)[i - 1] == s[i]);
            }
        }
    } else {
        assert(s.skip(0) =~= s);
    }
}

/// What is cut off the end of a text is white space, and what is left ends with none.
pub proof fn law_trimmed_end(s: Seq<char>)
    ensures
        text::trim_end(s).len() <= s.len(),
        s.take(text::trim_end(s).len() as int) == text::trim_end(s),
        blank(s.skip(text::trim_end(s).len() as int)),
        text::trim_end(s).len() > 0 ==> !text::is_space(text::trim_end(s).last()),
    decreases s.len(),
{
    if s.len() > 0 && text::is_space(s.last()) {
        law_trimmed_end(s.drop_last());
        let n = text::trim_end(s).len() as int;
        assert(s.drop_last().take(n) =~= s.take(n));
        assert forall|i: int| 0 <= i < s.len() - n implies text::is_space(
            #[trigger] s.skip(n)[i],
        ) by {
            if i < s.len() - n - 1 {
                assert(s.drop_last().skip(n)[i] == s[n + i]);
            }
        }
    } else {
        assert(s.take(s.len() as int) =~= s);
    }
}

/// White space around a text that neither starts nor ends with some is cut off, and no more.
pub proof fn law_trimmed(a: Seq<char>, s: Seq<char>, b: Seq<char>)
    requires
        blank(a),
        blank(b),
        s.len() > 0 ==> !text::is_space(s[0]) && !text::is_space(s.last()),
    ensures
        text::trim(a + s + b) == s,
{
    lemma_trim_start_of(a, s + b);
    assert(a + s + b =~= a + (s + b));
    if s.len() > 0 {
        assert((s + b)[0] == s[0]);
        assert(text::trim_start(a + s + b) == s + b);
    } else {
        assert(s + b =~= b);
        assert(b + Seq::<char>::empty() =~= b);
        lemma_trim_start_of(b, Seq::empty());
        assert(Seq::<char>::empty() + Seq::<char>::empty() =~= Seq::<char>::empty());
        assert(text::trim_start(a + s + b) =~= Seq::<char>::empty());
        assert(s =~= Seq::<char>::empty());
    }
    lemma_trim_end_of(s, b);
}

/// White space at the start of a text goes.
proof fn lemma_trim_start_of(a: Seq<char>, s: Seq<char>)
    requires
        blank(a),
    ensures
        text::trim_start(a + s) == text::trim_start(s),
    decreases a.len(),
{
    if a.len() > 0 {
        assert((a + s)[0] == a[0]);
        assert((a + s).skip(1) =~= a.skip(1) + s);
        assert forall|i: int| 0 <= i < a.skip(1).len() implies text::is_space(
            #[trigger] a.skip(1)[i],
        ) by {
            assert(a.skip(1)[i] == a[i + 1]);
        }
        lemma_trim_start_of(a.skip(1), s);
    } else {
        assert(a + s =~= s);
    }
}

/// White space at the end of a text goes.
proof fn lemma_trim_end_of(s: Seq<char>, b: Seq<char>)
    requires
        blank(b),
        s.len() > 0 ==> !text::is_space(s.last()),
    ensures
        text::trim_end(s + b) == s,
    decreases b.len(),
{
    if b.len() > 0 {
        assert((s + b).last() == b.last());
        assert((s + b).drop_last() =~= s + b.drop_last());
        assert forall|i: int| 0 <= i < b.drop_last().len() implies text::is_space(
            #[trigger] b.drop_last()[i],
        ) by {
            assert(b.drop_last()[i] == b[i]);
        }
        lemma_trim_end_of(s, b.drop_last());
    } else {
        assert(s + b =~= s);
    }
}

/// The words of a text are its longest parts without white space, in their order.
pub proof fn law_words(sp: Seq<char>, w: Seq<char>, rest: Seq<char>)
    requires
        blank(sp),
        w.len() > 0,
        solid(w),
        rest.len() > 0 ==> text::is_space(rest[0]),
    ensures
        text::words(sp + w + rest) == seq![w] + text::words(rest),
        text::words(sp) == Seq::<Seq<char>>::empty(),
{
    let s = sp + w + rest;
    lemma_trim_start_of(sp, w + rest);
    assert(s =~= sp + (w + rest));
    assert((w + rest)[0] == w[0]);
    assert(text::trim_start(s) == w + rest);
    lemma_word_len_of(w, rest);
    assert((w + rest).take(w.len() as int) =~= w);
    assert((w + rest).skip(w.len() as int) =~= rest);
    lemma_trim_start_of(sp, Seq::empty());
    assert(sp + Seq::<char>::empty() =~= sp);
}

/// How long the first word is.
proof fn lemma_word_len_of(w: Seq<char>, rest: Seq<char>)
    requires
        solid(w),
        rest.len() > 0 ==> text::is_space(rest[0]),
    ensures
        text::word_len(w + rest) == w.len(),
    decreases w.len(),
{
    if w.len() > 0 {
        assert((w + rest)[0] == w[0]);
        assert((w + rest).skip(1) =~= w.skip(1) + rest);
        assert forall|i: int| 0 <= i < w.skip(1).len() implies !text::is_space(
            #[trigger] w.skip(1)[i],
        ) by {
            assert(w.skip(1)[i] == w[i + 1]);
        }
        lemma_word_len_of(w.skip(1), rest);
    } else {
        assert(w + rest =~= rest);
    }
}

// ---------------------------------------------------------------------------
// Lines and pieces
// ---------------------------------------------------------------------------

/// Where the lines of a text end: at each line feed, with the carriage return before it, and at the
/// end, unless nothing is left there.
pub proof fn law_lines(a: Seq<char>, rest: Seq<char>)
    requires
        !a.contains('\n'),
    ensures
        !(a.len() > 0 && a.last() == '\r') ==> text::lines(a + seq!['\n'] + rest) == seq![a]
            + text::lines(rest),
        text::lines(a + seq!['\r', '\n'] + rest) == seq![a] + text::lines(rest),
        a.len() > 0 ==> text::lines(a) == seq![a],
        text::lines(Seq::empty()) == Seq::<Seq<char>>::empty(),
{
    text::lemma_lines_front(a, rest);
    let b = a.push('\r');
    assert(!b.contains('\n')) by {
        if b.contains('\n') {
            let j = choose|j: int| 0 <= j < b.len() && b[j] == '\n';
            assert(a[j] == '\n');
        }
    }
    text::lemma_lines_front(b, rest);
    assert(b + seq!['\n'] + rest =~= a + seq!['\r', '\n'] + rest);
    assert(text::without_return(b) =~= a);
    assert forall|j: int| 0 <= j < a.len() implies a[j] != '\n' by {
        assert(a.contains(a[j]));
    }
    text::lemma_first_index(a, '\n', a.len() as int);
}

/// How many lines a text has: as many as line feeds, and one more where it does not end with one.
pub open spec fn line_count(s: Seq<char>) -> int {
    count(s, '\n') + (if s.len() == 0 || s.last() == '\n' {
        0int
    } else {
        1
    })
}

/// A text has as many lines as line feeds, and one more where it does not end with one.
pub proof fn law_line_count(s: Seq<char>)
    ensures
        text::lines(s).len() == line_count(s),
    decreases s.len(),
{
    text::lemma_first_index_bound(s, '\n');
    let k = text::first_index(s, '\n');
    if k < s.len() {
        let (a, rest) = (s.take(k), s.skip(k + 1));
        assert(s =~= a + seq!['\n'] + rest);
        law_line_count(rest);
        lemma_count_sum(a + seq!['\n'], rest, '\n');
        lemma_count_sum(a, seq!['\n'], '\n');
        lemma_count_one('\n', '\n');
        lemma_count_none(a, '\n');
        if rest.len() > 0 {
            assert(rest.last() == s.last());
        }
    } else {
        lemma_count_none(s, '\n');
    }
}

/// A text has one piece more than separators.
pub proof fn law_piece_count(s: Seq<char>, c: char)
    ensures
        text::split(s, c).len() == count(s, c) + 1,
    decreases s.len(),
{
    text::lemma_first_index_bound(s, c);
    let k = text::first_index(s, c);
    if k < s.len() {
        let (a, rest) = (s.take(k), s.skip(k + 1));
        assert(s =~= a + seq![c] + rest);
        law_piece_count(rest, c);
        lemma_count_sum(a + seq![c], rest, c);
        lemma_count_sum(a, seq![c], c);
        lemma_count_one(c, c);
        lemma_count_none(a, c);
    } else {
        lemma_count_none(s, c);
    }
}

/// Texts that are joined stand behind one another in their order, with the separator between them
/// and nowhere else.
pub proof fn law_joined(a: Seq<Seq<char>>, b: Seq<Seq<char>>, x: Seq<char>, sep: Seq<char>)
    ensures
        text::join(Seq::empty(), sep) == Seq::<char>::empty(),
        text::join(seq![x], sep) == x,
        a.len() > 0 && b.len() > 0 ==> text::join(a + b, sep) == text::join(a, sep) + sep
            + text::join(b, sep),
    decreases b.len(),
{
    if a.len() > 0 && b.len() > 0 {
        assert((a + b).drop_last() =~= a + b.drop_last());
        assert((a + b).last() == b.last());
        if b.len() == 1 {
            assert(a + b.drop_last() =~= a);
            assert(text::join(b, sep) == b[0]);
        } else {
            law_joined(a, b.drop_last(), x, sep);
            assert(text::join(a, sep) + sep + text::join(b.drop_last(), sep) + sep + b.last()
                =~= text::join(a, sep) + sep + (text::join(b.drop_last(), sep) + sep + b.last()));
        }
    }
}

/// Each of the texts that are joined is in the whole.
pub proof fn law_joined_parts(parts: Seq<Seq<char>>, sep: Seq<char>, i: int)
    requires
        0 <= i < parts.len(),
    ensures
        exists|k: int|
            #![trigger text::join(parts, sep).subrange(k, k + parts[i].len())]
            0 <= k && k + parts[i].len() <= text::join(parts, sep).len() && text::join(
                parts,
                sep,
            ).subrange(k, k + parts[i].len()) == parts[i],
    decreases parts.len(),
{
    let all = text::join(parts, sep);
    if parts.len() == 1 {
        assert(all.subrange(0, 0int + parts[i].len()) =~= parts[i]);
    } else if i == parts.len() - 1 {
        let k = all.len() - parts[i].len();
        assert(all.subrange(k, k + parts[i].len()) =~= parts[i]);
    } else {
        law_joined_parts(parts.drop_last(), sep, i);
        let before = text::join(parts.drop_last(), sep);
        let k = choose|k: int|
            #![trigger before.subrange(k, k + parts[i].len())]
            0 <= k && k + parts[i].len() <= before.len() && before.subrange(
                k,
                k + parts[i].len(),
            ) == parts[i];
        assert(all.subrange(k, k + parts[i].len()) =~= before.subrange(k, k + parts[i].len()));
    }
}

// ---------------------------------------------------------------------------
// Parts of texts
// ---------------------------------------------------------------------------

/// What a text starts and ends with, and what is behind its start.
pub proof fn law_ends(p: Seq<char>, rest: Seq<char>)
    ensures
        text::starts_with(p + rest, p),
        text::strip_prefix(p + rest, p) == Some(rest),
        text::ends_with(p + rest, rest),
{
    assert((p + rest).take(p.len() as int) =~= p);
    assert((p + rest).skip(p.len() as int) =~= rest);
}

/// A text starts with no other than the one that it has at its start, and ends with no other than
/// the one at its end.
pub proof fn law_ends_differ(s: Seq<char>, p: Seq<char>, i: int)
    requires
        0 <= i < p.len(),
    ensures
        i >= s.len() || s[i] != p[i] ==> !text::starts_with(s, p) && text::strip_prefix(s, p)
            is None,
        i >= s.len() || s[s.len() - 1 - i] != p[p.len() - 1 - i] ==> !text::ends_with(s, p),
{
    if text::starts_with(s, p) {
        assert(s.take(p.len() as int)[i] == s[i]);
    }
    if text::ends_with(s, p) {
        assert(s.skip(s.len() - p.len())[p.len() - 1 - i] == s[s.len() - 1 - i]);
    }
}

/// Where a text is found: at the first place that holds it, and only if there is one.
pub proof fn law_found(s: Seq<char>, p: Seq<char>, k: int)
    requires
        0 <= k,
        k + p.len() <= s.len(),
        s.subrange(k, k + p.len()) == p,
    ensures
        text::contains(s, p),
        text::find(s, p) matches Some(first) && 0 <= first <= k && s.subrange(
            first,
            first + p.len(),
        ) == p,
    decreases k,
{
    text::lemma_find(s, p);
    if k == 0 {
        assert(s.take(p.len() as int) =~= s.subrange(0, p.len() as int));
    } else if !text::starts_with(s, p) {
        assert(s.skip(1).subrange(k - 1, k - 1 + p.len()) =~= s.subrange(k, k + p.len()));
        law_found(s.skip(1), p, k - 1);
    }
}

/// The letters A to Z in lower case are the letters a to z, in their order, and nothing else
/// changes.
pub proof fn law_lower_case(c: char)
    ensures
        'A' <= c <= 'Z' ==> text::ascii_lower(c) as int - 'a' as int == c as int - 'A' as int,
        !('A' <= c <= 'Z') ==> text::ascii_lower(c) == c,
{
}

/// A text comes before another where it has the lesser character at the first place at which they
/// differ, or is the start of the other.
pub proof fn law_order(a: Seq<char>, b: Seq<char>, k: int)
    requires
        0 <= k <= a.len(),
        k <= b.len(),
        a.take(k) == b.take(k),
    ensures
        k < a.len() && k < b.len() && a[k] != b[k] ==> text::text_before(a, b, 0) == (a[k] < b[k]),
        k == a.len() ==> text::text_before(a, b, 0) == (a.len() < b.len()),
        k == b.len() ==> !text::text_before(a, b, 0),
{
    lemma_order_from(a, b, 0, k);
}

/// The order of texts that have the same start.
proof fn lemma_order_from(a: Seq<char>, b: Seq<char>, j: int, k: int)
    requires
        0 <= j <= k <= a.len(),
        k <= b.len(),
        a.take(k) == b.take(k),
    ensures
        text::text_before(a, b, j) == text::text_before(a, b, k),
    decreases k - j,
{
    if j < k {
        assert(a.take(k)[j] == a[j]);
        assert(b.take(k)[j] == b[j]);
        lemma_order_from(a, b, j + 1, k);
    }
}

} // verus!
