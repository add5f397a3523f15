//! Text as a sequence of characters.
//!
//! The spec functions say what each operation means on `Seq<char>`; the executable functions
//! compute the same on `Vec<char>` and on strings.

use vstd::prelude::*;
use vstd::string::*;

use crate::lists;

verus! {

broadcast use crate::lists::group_lists;

// ---------------------------------------------------------------------------
// Strings, characters and lists of them
// ---------------------------------------------------------------------------

/// `String::push` appends one character.
pub assume_specification[ String::push ](s: &mut String, c: char)
    ensures
        final(s)@ == old(s)@.push(c),
;

/// The characters of a string, in order.
pub fn chars_of(s: &str) -> (r: Vec<char>)
    ensures
        r@ == s@,
{
    let mut out: Vec<char> = Vec::new();
    let mut it = s.chars();
    loop
        invariant
            out@ + vstd::std_specs::iter::IteratorSpec::remaining(&it) == s@,
            vstd::std_specs::iter::IteratorSpec::decrease(&it) is Some,
        ensures
            out@ == s@,
        decreases vstd::std_specs::iter::IteratorSpec::decrease(&it)->0,
    {
        let ghost before = vstd::std_specs::iter::IteratorSpec::remaining(&it);
        match it.next() {
            Some(c) => {
                out.push(c);
                assert(out@ + vstd::std_specs::iter::IteratorSpec::remaining(&it) =~= s@);
            },
            None => {
                assert(out@ + before =~= out@);
                break;
            },
        }
    }
    out
}

/// The string made of the characters `v[from..to]`.
pub fn text_of(v: &Vec<char>, from: usize, to: usize) -> (r: String)
    requires
        from <= to <= v@.len(),
    ensures
        r@ == v@.subrange(from as int, to as int),
{
    let mut out = String::new();
    let mut i: usize = from;
    while i < to
        invariant
            from <= i <= to <= v@.len(),
            out@ == v@.subrange(from as int, i as int),
        decreases to - i,
    {
        out.push(v[i]);
        i += 1;
        assert(out@ =~= v@.subrange(from as int, i as int));
    }
    out
}

/// The string made of all the characters of `v`.
pub fn string_of(v: &Vec<char>) -> (r: String)
    ensures
        r@ == v@,
{
    let r = text_of(v, 0, v.len());
    assert(v@.subrange(0, v@.len() as int) =~= v@);
    r
}

/// The characters `v[from..to]`.
pub fn slice_of(v: &Vec<char>, from: usize, to: usize) -> (r: Vec<char>)
    requires
        from <= to <= v@.len(),
    ensures
        r@ == v@.subrange(from as int, to as int),
{
    let mut out: Vec<char> = Vec::new();
    let mut i: usize = from;
    while i < to
        invariant
            from <= i <= to <= v@.len(),
            out@ == v@.subrange(from as int, i as int),
        decreases to - i,
    {
        out.push(v[i]);
        i += 1;
        assert(out@ =~= v@.subrange(from as int, i as int));
    }
    out
}

/// A copy of a list of strings.
pub fn copy_texts(v: &Vec<String>) -> (r: Vec<String>)
    ensures
        lists::texts(r@) == lists::texts(v@),
{
    let mut out: Vec<String> = Vec::new();
    let mut i: usize = 0;
    while i < v.len()
        invariant
            0 <= i <= v@.len(),
            lists::texts(out@) == lists::texts(v@).take(i as int),
        decreases v@.len() - i,
    {
        out.push(v[i].clone());
        i += 1;
        assert(lists::texts(out@) =~= lists::texts(v@).take(i as int));
    }
    assert(lists::texts(v@).take(i as int) =~= lists::texts(v@));
    out
}

/// A copy of an optional string.
pub fn copy_opt(s: &Option<String>) -> (r: Option<String>)
    ensures
        lists::opt_text(r) == lists::opt_text(*s),
{
    match s {
        Some(t) => Some(t.clone()),
        None => None,
    }
}

/// Whether two rows hold the same characters.
pub fn same_chars(a: &Vec<char>, b: &Vec<char>) -> (r: bool)
    ensures
        r == (a@ == b@),
{
    if a.len() != b.len() {
        return false;
    }
    let mut i: usize = 0;
    while i < a.len()
        invariant
            0 <= i <= a@.len(),
            a@.len() == b@.len(),
            forall|j: int| 0 <= j < i ==> a@[j] == b@[j],
        decreases a@.len() - i,
    {
        if a[i] != b[i] {
            return false;
        }
        i += 1;
    }
    assert(a@ =~= b@);
    true
}

/// Whether two strings hold the same characters.
pub fn same_text(a: &str, b: &str) -> (r: bool)
    ensures
        r == (a@ == b@),
{
    same_chars(&chars_of(a), &chars_of(b))
}

// ---------------------------------------------------------------------------
// White space
// ---------------------------------------------------------------------------

/// The characters with the Unicode property `White_Space`.
pub open spec fn is_space(c: char) -> bool {
    ||| '\u{9}' <= c <= '\u{d}'
    ||| c == ' '
    ||| c == '\u{85}'
    ||| c == '\u{a0}'
    ||| c == '\u{1680}'
    ||| '\u{2000}' <= c <= '\u{200a}'
    ||| c == '\u{2028}'
    ||| c == '\u{2029}'
    ||| c == '\u{202f}'
    ||| c == '\u{205f}'
    ||| c == '\u{3000}'
}

/// Whether `c` is white space.
pub fn space(c: char) -> (r: bool)
    ensures
        r == is_space(c),
{
    ('\u{9}' <= c && c <= '\u{d}') || c == ' ' || c == '\u{85}' || c == '\u{a0}' || c == '\u{1680}' || (
    '\u{2000}' <= c && c <= '\u{200a}') || c == '\u{2028}' || c == '\u{2029}' || c == '\u{202f}' || c
        == '\u{205f}' || c == '\u{3000}'
}

/// `s` without the white space at its start.
pub open spec fn trim_start(s: Seq<char>) -> Seq<char>
    decreases s.len(),
{
    if s.len() > 0 && is_space(s[0]) {
        trim_start(s.skip(1))
    } else {
        s
    }
}

/// `s` without the white space at its end.
pub open spec fn trim_end(s: Seq<char>) -> Seq<char>
    decreases s.len(),
{
    if s.len() > 0 && is_space(s.last()) {
        trim_end(s.drop_last())
    } else {
        s
    }
}

/// `s` without the white space at either end.
pub open spec fn trim(s: Seq<char>) -> Seq<char> {
    trim_end(trim_start(s))
}

/// How many characters of white space `v` starts with.
pub fn space_count(v: &Vec<char>) -> (n: usize)
    ensures
        n <= v@.len(),
        v@.skip(n as int) == trim_start(v@),
{
    let mut i: usize = 0;
    assert(v@.skip(0) =~= v@);
    while i < v.len() && space(v[i])
        invariant
            0 <= i <= v@.len(),
            trim_start(v@.skip(i as int)) == trim_start(v@),
        decreases v@.len() - i,
    {
        assert(v@.skip(i as int).skip(1) =~= v@.skip(i + 1));
        assert(v@.skip(i as int)[0] == v@[i as int]);
        i += 1;
    }
    assert(i < v@.len() ==> v@.skip(i as int)[0] == v@[i as int]);
    i
}

/// Where the white space at the end of `v` starts.
pub fn solid_len(v: &Vec<char>) -> (n: usize)
    ensures
        n <= v@.len(),
        v@.take(n as int) == trim_end(v@),
{
    let mut i: usize = v.len();
    assert(v@.take(i as int) =~= v@);
    while i > 0 && space(v[i - 1])
        invariant
            0 <= i <= v@.len(),
            trim_end(v@.take(i as int)) == trim_end(v@),
        decreases i,
    {
        assert(v@.take(i as int).drop_last() =~= v@.take(i - 1));
        assert(v@.take(i as int).last() == v@[i - 1]);
        i -= 1;
    }
    assert(i > 0 ==> v@.take(i as int).last() == v@[i - 1]);
    i
}

/// `v` without the white space at its start.
pub fn trimmed_start(v: &Vec<char>) -> (r: Vec<char>)
    ensures
        r@ == trim_start(v@),
{
    let n: usize = space_count(v);
    let r = slice_of(v, n, v.len());
    assert(v@.subrange(n as int, v@.len() as int) =~= v@.skip(n as int));
    r
}

/// `v` without the white space at its end.
pub fn trimmed_end(v: &Vec<char>) -> (r: Vec<char>)
    ensures
        r@ == trim_end(v@),
{
    let n: usize = solid_len(v);
    let r = slice_of(v, 0, n);
    assert(v@.subrange(0, n as int) =~= v@.take(n as int));
    r
}

/// `v` without the white space at either end.
pub fn trimmed(v: &Vec<char>) -> (r: Vec<char>)
    ensures
        r@ == trim(v@),
{
    trimmed_end(&trimmed_start(v))
}

/// Trimming the start leaves the end of the text.
pub proof fn lemma_trim_start(s: Seq<char>)
    ensures
        trim_start(s).len() <= s.len(),
        trim_start(s) == s.skip(s.len() - trim_start(s).len()),
        trim_start(s).len() > 0 ==> !is_space(trim_start(s)[0]),
    decreases s.len(),
{
    if s.len() > 0 && is_space(s[0]) {
        lemma_trim_start(s.skip(1));
        let t = trim_start(s);
        assert(s.skip(1).skip(s.len() - 1 - t.len()) =~= s.skip(s.len() - t.len()));
    } else {
        assert(s.skip(0) =~= s);
    }
}

/// How long the run of other characters is that `s` starts with.
pub open spec fn word_len(s: Seq<char>) -> nat
    decreases s.len(),
{
    if s.len() > 0 && !is_space(s[0]) {
        1 + word_len(s.skip(1))
    } else {
        0
    }
}

/// A word is no longer than its text.
pub proof fn lemma_word_len(s: Seq<char>)
    ensures
        word_len(s) <= s.len(),
        s.len() > 0 && !is_space(s[0]) ==> word_len(s) > 0,
    decreases s.len(),
{
    if s.len() > 0 && !is_space(s[0]) {
        lemma_word_len(s.skip(1));
    }
}

/// The words of `s`: its maximal runs of characters that are not white space.
pub open spec fn words(s: Seq<char>) -> Seq<Seq<char>>
    decreases s.len(),
{
    let t = trim_start(s);
    if t.len() == 0 {
        Seq::empty()
    } else {
        proof {
            lemma_trim_start(s);
            lemma_word_len(t);
        }
        seq![t.take(word_len(t) as int)] + words(t.skip(word_len(t) as int))
    }
}

/// The words of `v`.
pub fn split_words(v: &Vec<char>) -> (r: Vec<Vec<char>>)
    ensures
        lists::rows(r@) == words(v@),
{
    let mut out: Vec<Vec<char>> = Vec::new();
    let mut i: usize = 0;
    assert(v@.skip(0) =~= v@);
    assert(lists::rows(out@) + words(v@) =~= words(v@));
    loop
        invariant
            0 <= i <= v@.len(),
            lists::rows(out@) + words(v@.skip(i as int)) == words(v@),
        ensures
            lists::rows(out@) == words(v@),
        decreases v@.len() - i,
    {
        let ghost rest = v@.skip(i as int);
        let mut j: usize = i;
        assert(v@.skip(j as int) == rest);
        while j < v.len() && space(v[j])
            invariant
                i <= j <= v@.len(),
                trim_start(v@.skip(j as int)) == trim_start(rest),
            decreases v@.len() - j,
        {
            assert(v@.skip(j as int).skip(1) =~= v@.skip(j + 1));
            assert(v@.skip(j as int)[0] == v@[j as int]);
            j += 1;
        }
        let ghost t = v@.skip(j as int);
        assert(j < v@.len() ==> t[0] == v@[j as int]);
        assert(trim_start(rest) == t);
        if j == v.len() {
            assert(lists::rows(out@) + words(rest) =~= lists::rows(out@));
            break;
        }
        let mut k: usize = j;
        while k < v.len() && !space(v[k])
            invariant
                j <= k <= v@.len(),
                t == v@.skip(j as int),
                word_len(t) == (k - j) + word_len(v@.skip(k as int)),
            decreases v@.len() - k,
        {
            assert(v@.skip(k as int).skip(1) =~= v@.skip(k + 1));
            assert(v@.skip(k as int)[0] == v@[k as int]);
            k += 1;
        }
        assert(k < v@.len() ==> v@.skip(k as int)[0] == v@[k as int]);
        assert(word_len(t) == k - j);
        let w = slice_of(v, j, k);
        proof {
            lemma_word_len(t);
            assert(w@ =~= t.take(k - j));
            assert(t.skip(k - j) =~= v@.skip(k as int));
            assert(words(rest) == seq![w@] + words(v@.skip(k as int)));
            assert(lists::rows(out@).push(w@) + words(v@.skip(k as int)) =~= lists::rows(out@) + (
            seq![w@] + words(v@.skip(k as int))));
        }
        out.push(w);
        i = k;
    }
    out
}

// ---------------------------------------------------------------------------
// Splitting and joining
// ---------------------------------------------------------------------------

/// The place of the first `c` in `s`, or `s.len()` where there is none.
pub open spec fn first_index(s: Seq<char>, c: char) -> int
    decreases s.len(),
{
    if s.len() == 0 || s[0] == c {
        0
    } else {
        1 + first_index(s.skip(1), c)
    }
}

/// What the first place is: nothing before it is `c`, and it holds `c` where it is in `s`.
pub proof fn lemma_first_index(s: Seq<char>, c: char, k: int)
    requires
        0 <= k <= s.len(),
        forall|j: int| 0 <= j < k ==> s[j] != c,
        k < s.len() ==> s[k] == c,
    ensures
        first_index(s, c) == k,
    decreases k,
{
    if k > 0 {
        assert forall|j: int| 0 <= j < k - 1 implies s.skip(1)[j] != c by {
            assert(s.skip(1)[j] == s[j + 1]);
        }
        lemma_first_index(s.skip(1), c, k - 1);
    }
}

/// The first place lies within the text.
pub proof fn lemma_first_index_bound(s: Seq<char>, c: char)
    ensures
        0 <= first_index(s, c) <= s.len(),
        first_index(s, c) < s.len() ==> s[first_index(s, c) as int] == c,
        forall|j: int| 0 <= j < first_index(s, c) ==> s[j] != c,
    decreases s.len(),
{
    if s.len() > 0 && s[0] != c {
        lemma_first_index_bound(s.skip(1), c);
        let k = first_index(s.skip(1), c);
        assert forall|j: int| 0 <= j < k + 1 implies s[j] != c by {
            if j > 0 {
                assert(s.skip(1)[j - 1] == s[j]);
            }
        }
    }
}

/// The place of the first `c` in `v` at or after `from`.
pub fn index_from(v: &Vec<char>, from: usize, c: char) -> (r: usize)
    requires
        from <= v@.len(),
    ensures
        from <= r <= v@.len(),
        r - from == first_index(v@.skip(from as int), c),
{
    let mut i: usize = from;
    while i < v.len() && v[i] != c
        invariant
            from <= i <= v@.len(),
            forall|j: int| from <= j < i ==> v@[j] != c,
        decreases v@.len() - i,
    {
        i += 1;
    }
    proof {
        lemma_first_index(v@.skip(from as int), c, i - from);
    }
    i
}

/// The pieces of `s` between the separators `c`: one more than there are separators.
pub open spec fn split(s: Seq<char>, c: char) -> Seq<Seq<char>>
    decreases s.len(),
{
    let k = first_index(s, c);
    if k < 0 || k >= s.len() {
        seq![s]
    } else {
        seq![s.take(k)] + split(s.skip(k + 1), c)
    }
}

/// The pieces of `v` between the separators `c`.
pub fn split_at_each(v: &Vec<char>, c: char) -> (r: Vec<Vec<char>>)
    ensures
        lists::rows(r@) == split(v@, c),
{
    let mut out: Vec<Vec<char>> = Vec::new();
    let mut i: usize = 0;
    assert(v@.skip(0) =~= v@);
    assert(lists::rows(out@) + split(v@, c) =~= split(v@, c));
    loop
        invariant_except_break
            0 <= i <= v@.len(),
            lists::rows(out@) + split(v@.skip(i as int), c) == split(v@, c),
        ensures
            lists::rows(out@) == split(v@, c),
        decreases v@.len() - i,
    {
        let ghost rest = v@.skip(i as int);
        let k: usize = index_from(v, i, c);
        let piece = slice_of(v, i, k);
        let ghost before = lists::rows(out@);
        out.push(piece);
        if k == v.len() {
            assert(piece@ =~= rest);
            assert(lists::rows(out@) =~= before + split(rest, c));
            break;
        }
        proof {
            assert(piece@ =~= rest.take(k - i));
            assert(rest.skip(k - i + 1) =~= v@.skip(k + 1));
            assert(lists::rows(out@) + split(v@.skip(k + 1), c) =~= before + split(rest, c));
        }
        i = k + 1;
    }
    out
}

/// `s` without the carriage return that it may end with.
pub open spec fn without_return(s: Seq<char>) -> Seq<char> {
    if s.len() > 0 && s.last() == '\r' {
        s.drop_last()
    } else {
        s
    }
}

/// The lines of `s`. A line ends at a line feed, or at a carriage return and a line feed, and the
/// last line needs no ending.
pub open spec fn lines(s: Seq<char>) -> Seq<Seq<char>>
    decreases s.len(),
{
    let k = first_index(s, '\n');
    if s.len() == 0 {
        Seq::empty()
    } else if k < 0 || k >= s.len() {
        seq![s]
    } else {
        seq![without_return(s.take(k))] + lines(s.skip(k + 1))
    }
}

/// The lines of `v`.
pub fn split_lines(v: &Vec<char>) -> (r: Vec<Vec<char>>)
    ensures
        lists::rows(r@) == lines(v@),
{
    let mut out: Vec<Vec<char>> = Vec::new();
    let mut i: usize = 0;
    assert(v@.skip(0) =~= v@);
    assert(lists::rows(out@) + lines(v@) =~= lines(v@));
    while i < v.len()
        invariant
            0 <= i <= v@.len(),
            lists::rows(out@) + lines(v@.skip(i as int)) == lines(v@),
        decreases v@.len() - i,
    {
        let ghost rest = v@.skip(i as int);
        let k: usize = index_from(v, i, '\n');
        let ghost before = lists::rows(out@);
        if k == v.len() {
            let piece = slice_of(v, i, k);
            assert(piece@ =~= rest);
            out.push(piece);
            assert(v@.skip(k as int).len() == 0);
            assert(lists::rows(out@) + lines(v@.skip(k as int)) =~= before + lines(rest));
            i = k;
        } else {
            assert(rest.take(k - i) =~= v@.subrange(i as int, k as int));
            let end: usize = if i < k && v[k - 1] == '\r' {
                k - 1
            } else {
                k
            };
            let piece = slice_of(v, i, end);
            assert(piece@ =~= without_return(rest.take(k - i)));
            out.push(piece);
            proof {
                assert(rest.skip(k - i + 1) =~= v@.skip(k + 1));
                assert(lists::rows(out@) + lines(v@.skip(k + 1)) =~= before + lines(rest));
            }
            i = k + 1;
        }
    }
    assert(v@.skip(i as int).len() == 0);
    assert(lists::rows(out@) + lines(v@.skip(i as int)) =~= lists::rows(out@));
    out
}

/// The parts, one after the other, with `sep` between each two.
pub open spec fn join(parts: Seq<Seq<char>>, sep: Seq<char>) -> Seq<char>
    decreases parts.len(),
{
    if parts.len() == 0 {
        Seq::empty()
    } else if parts.len() == 1 {
        parts[0]
    } else {
        join(parts.drop_last(), sep) + sep + parts.last()
    }
}

/// The rows joined by `sep`.
pub fn join_rows(parts: &Vec<Vec<char>>, sep: &str) -> (r: Vec<char>)
    ensures
        r@ == join(lists::rows(parts@), sep@),
{
    let sep_chars = chars_of(sep);
    let mut out: Vec<char> = Vec::new();
    let mut i: usize = 0;
    while i < parts.len()
        invariant
            0 <= i <= parts@.len(),
            sep_chars@ == sep@,
            out@ == join(lists::rows(parts@).take(i as int), sep@),
        decreases parts@.len() - i,
    {
        let ghost all = lists::rows(parts@);
        if i > 0 {
            push_all(&mut out, &sep_chars);
        }
        push_all(&mut out, &parts[i]);
        i += 1;
        proof {
            assert(all.take(i as int).drop_last() =~= all.take(i - 1));
            assert(all.take(i as int).last() == parts@[i - 1]@);
            if i == 1 {
                assert(all.take(0) =~= Seq::empty());
                assert(out@ =~= all.take(1)[0]);
            }
        }
    }
    assert(lists::rows(parts@).take(i as int) =~= lists::rows(parts@));
    out
}

/// Appends the characters of `more`.
pub fn push_all(out: &mut Vec<char>, more: &Vec<char>)
    ensures
        final(out)@ == old(out)@ + more@,
{
    let ghost start = out@;
    let mut i: usize = 0;
    assert(start + more@.take(0) =~= start);
    while i < more.len()
        invariant
            0 <= i <= more@.len(),
            out@ == start + more@.take(i as int),
        decreases more@.len() - i,
    {
        out.push(more[i]);
        i += 1;
        assert(start + more@.take(i as int) =~= (start + more@.take(i - 1)).push(more@[i - 1]));
    }
    assert(more@.take(i as int) =~= more@);
}

/// The strings joined by `sep`.
pub fn join_texts(parts: &Vec<String>, sep: &str) -> (r: String)
    ensures
        r@ == join(lists::texts(parts@), sep@),
{
    let mut out = String::new();
    let mut i: usize = 0;
    while i < parts.len()
        invariant
            0 <= i <= parts@.len(),
            out@ == join(lists::texts(parts@).take(i as int), sep@),
        decreases parts@.len() - i,
    {
        let ghost all = lists::texts(parts@);
        if i > 0 {
            out.append(sep);
        }
        out.append(parts[i].as_str());
        i += 1;
        proof {
            assert(all.take(i as int).drop_last() =~= all.take(i - 1));
            assert(all.take(i as int).last() == parts@[i - 1]@);
            if i == 1 {
                assert(all.take(0) =~= Seq::empty());
                assert(out@ =~= all.take(1)[0]);
            }
        }
    }
    assert(lists::texts(parts@).take(i as int) =~= lists::texts(parts@));
    out
}

/// The rows as strings.
pub fn strings_of(v: &Vec<Vec<char>>) -> (r: Vec<String>)
    ensures
        lists::texts(r@) == lists::rows(v@),
{
    let mut out: Vec<String> = Vec::new();
    let mut i: usize = 0;
    while i < v.len()
        invariant
            0 <= i <= v@.len(),
            lists::texts(out@) == lists::rows(v@).take(i as int),
        decreases v@.len() - i,
    {
        out.push(string_of(&v[i]));
        i += 1;
        assert(lists::texts(out@) =~= lists::rows(v@).take(i as int));
    }
    assert(lists::rows(v@).take(i as int) =~= lists::rows(v@));
    out
}

/// The lines of a string, as strings.
pub fn lines_of(s: &str) -> (r: Vec<String>)
    ensures
        lists::texts(r@) == lines(s@),
{
    strings_of(&split_lines(&chars_of(s)))
}

// ---------------------------------------------------------------------------
// Prefixes and substrings
// ---------------------------------------------------------------------------

/// Whether `s` starts with `p`.
pub open spec fn starts_with(s: Seq<char>, p: Seq<char>) -> bool {
    p.len() <= s.len() && s.take(p.len() as int) == p
}

/// Whether `s` ends with `p`.
pub open spec fn ends_with(s: Seq<char>, p: Seq<char>) -> bool {
    p.len() <= s.len() && s.skip(s.len() - p.len()) == p
}

/// Whether `v` holds `p` at the place `at`.
pub fn holds_at(v: &Vec<char>, at: usize, p: &Vec<char>) -> (r: bool)
    requires
        at <= v@.len(),
    ensures
        r == starts_with(v@.skip(at as int), p@),
{
    let ghost rest = v@.skip(at as int);
    let n: usize = v.len();
    if n - at < p.len() {
        return false;
    }
    let mut i: usize = 0;
    while i < p.len()
        invariant
            0 <= i <= p@.len(),
            at + p@.len() <= v@.len() == n,
            rest == v@.skip(at as int),
            forall|j: int| 0 <= j < i ==> v@[at + j] == p@[j],
        decreases p@.len() - i,
    {
        if v[at + i] != p[i] {
            assert(rest.take(p@.len() as int)[i as int] == v@[at + i]);
            return false;
        }
        i += 1;
    }
    assert(rest.take(p@.len() as int) =~= p@);
    true
}

/// Whether `v` starts with the text `p`.
pub fn has_prefix(v: &Vec<char>, p: &str) -> (r: bool)
    ensures
        r == starts_with(v@, p@),
{
    assert(v@.skip(0) =~= v@);
    holds_at(v, 0, &chars_of(p))
}

/// Whether `v` ends with the text `p`.
pub fn has_suffix(v: &Vec<char>, p: &str) -> (r: bool)
    ensures
        r == ends_with(v@, p@),
{
    let pc = chars_of(p);
    if pc.len() > v.len() {
        return false;
    }
    let at: usize = v.len() - pc.len();
    assert(v@.skip(at as int).take(pc@.len() as int) =~= v@.skip(at as int));
    holds_at(v, at, &pc)
}

/// What follows the prefix `p` in `s`, where `s` starts with it.
pub open spec fn strip_prefix(s: Seq<char>, p: Seq<char>) -> Option<Seq<char>> {
    if starts_with(s, p) {
        Some(s.skip(p.len() as int))
    } else {
        None
    }
}

/// What follows the prefix `p` in `v`, where `v` starts with it.
pub fn after_prefix(v: &Vec<char>, p: &str) -> (r: Option<Vec<char>>)
    ensures
        match r {
            Some(rest) => strip_prefix(v@, p@) == Some(rest@),
            None => strip_prefix(v@, p@) is None,
        },
{
    let pc = chars_of(p);
    assert(v@.skip(0) =~= v@);
    if holds_at(v, 0, &pc) {
        let rest = slice_of(v, pc.len(), v.len());
        assert(rest@ =~= v@.skip(pc@.len() as int));
        Some(rest)
    } else {
        None
    }
}

/// The first place at which `s` holds `p`.
pub open spec fn find(s: Seq<char>, p: Seq<char>) -> Option<int>
    decreases s.len(),
{
    if starts_with(s, p) {
        Some(0)
    } else if s.len() == 0 {
        None
    } else {
        match find(s.skip(1), p) {
            Some(k) => Some(k + 1),
            None => None,
        }
    }
}

/// Whether `s` holds `p` somewhere.
pub open spec fn contains(s: Seq<char>, p: Seq<char>) -> bool {
    find(s, p) is Some
}

/// A place that is found holds the text.
pub proof fn lemma_find(s: Seq<char>, p: Seq<char>)
    ensures
        find(s, p) matches Some(k) ==> 0 <= k && k + p.len() <= s.len() && s.subrange(
            k,
            k + p.len(),
        ) == p,
    decreases s.len(),
{
    if starts_with(s, p) {
        assert(s.subrange(0, p.len() as int) =~= s.take(p.len() as int));
    } else if s.len() > 0 {
        lemma_find(s.skip(1), p);
        if let Some(k) = find(s.skip(1), p) {
            assert(s.skip(1).subrange(k, k + p.len()) =~= s.subrange(
                k + 1,
                k + 1 + p.len(),
            ));
        }
    }
}

/// A text that is somewhere is found.
pub proof fn lemma_contains(s: Seq<char>, p: Seq<char>, k: int)
    requires
        0 <= k,
        k + p.len() <= s.len(),
        s.subrange(k, k + p.len()) == p,
    ensures
        contains(s, p),
    decreases s.len(),
{
    if k == 0 {
        assert(s.take(p.len() as int) =~= s.subrange(0, p.len() as int));
    } else if !starts_with(s, p) {
        assert(s.skip(1).subrange(k - 1, k - 1 + p.len()) =~= s.subrange(k, k + p.len()));
        lemma_contains(s.skip(1), p, k - 1);
    }
}

/// The first place at which `v` holds `p`.
pub fn place_of(v: &Vec<char>, p: &Vec<char>) -> (r: Option<usize>)
    ensures
        match r {
            Some(k) => find(v@, p@) == Some(k as int) && k + p@.len() <= v@.len(),
            None => find(v@, p@) is None,
        },
{
    let mut i: usize = 0;
    assert(v@.skip(0) =~= v@);
    loop
        invariant
            0 <= i <= v@.len(),
            match find(v@.skip(i as int), p@) {
                Some(k) => find(v@, p@) == Some(i + k),
                None => find(v@, p@) is None,
            },
        decreases v@.len() - i,
    {
        if holds_at(v, i, p) {
            return Some(i);
        }
        if i == v.len() {
            return None;
        }
        assert(v@.skip(i as int).skip(1) =~= v@.skip(i + 1));
        i += 1;
    }
}

// ---------------------------------------------------------------------------
// Letters
// ---------------------------------------------------------------------------

/// The letter that `c` is in lower case, for the letters A to Z.
pub open spec fn ascii_lower(c: char) -> char {
    if 'A' <= c <= 'Z' {
        (c as int + 32) as char
    } else {
        c
    }
}

/// `s` with the letters A to Z in lower case.
pub open spec fn ascii_lower_text(s: Seq<char>) -> Seq<char> {
    s.map_values(|c: char| ascii_lower(c))
}

// ---------------------------------------------------------------------------
// Order
// ---------------------------------------------------------------------------

/// Whether a text comes before another, by their characters from the place `k` on.
pub open spec fn text_before(a: Seq<char>, b: Seq<char>, k: int) -> bool
    decreases a.len() - k,
{
    if k < 0 || k >= b.len() {
        false
    } else if k >= a.len() {
        true
    } else if a[k] != b[k] {
        a[k] < b[k]
    } else {
        text_before(a, b, k + 1)
    }
}

/// Whether a text comes before another.
pub fn comes_before(a: &str, b: &str) -> (r: bool)
    ensures
        r == text_before(a@, b@, 0),
{
    let (x, y) = (chars_of(a), chars_of(b));
    let mut k: usize = 0;
    while k < x.len() && k < y.len()
        invariant
            0 <= k <= x@.len(),
            k <= y@.len(),
            x@ == a@,
            y@ == b@,
            text_before(x@, y@, 0) == text_before(x@, y@, k as int),
        decreases x@.len() - k,
    {
        if x[k] != y[k] {
            return x[k] < y[k];
        }
        k += 1;
    }
    k < y.len()
}

/// Of two texts that differ one comes before the other, and not the other way round.
pub proof fn law_text_order(a: Seq<char>, b: Seq<char>, k: int)
    requires
        0 <= k,
    ensures
        !(text_before(a, b, k) && text_before(b, a, k)),
        k <= a.len() && k <= b.len() && !text_before(a, b, k) && !text_before(b, a, k) ==> a.skip(k)
            == b.skip(k),
    decreases a.len() - k,
{
    if k < a.len() && k < b.len() {
        law_text_order(a, b, k + 1);
        if a[k] == b[k] && a.skip(k + 1) == b.skip(k + 1) {
            assert(a.skip(k) =~= seq![a[k]] + a.skip(k + 1));
            assert(b.skip(k) =~= seq![b[k]] + b.skip(k + 1));
        }
    } else if k == a.len() && k == b.len() {
        assert(a.skip(k) =~= b.skip(k));
    }
}

// ---------------------------------------------------------------------------
// Laws of splitting and joining
// ---------------------------------------------------------------------------

/// The first of several parts stands before the others.
pub proof fn lemma_join_front(a: Seq<char>, rest: Seq<Seq<char>>, sep: Seq<char>)
    requires
        rest.len() > 0,
    ensures
        join(seq![a] + rest, sep) == a + sep + join(rest, sep),
    decreases rest.len(),
{
    let all = seq![a] + rest;
    assert(all.drop_last() =~= seq![a] + rest.drop_last());
    assert(all.last() == rest.last());
    if rest.len() == 1 {
        assert(all.drop_last() =~= seq![a]);
        assert(join(all.drop_last(), sep) == a);
    } else {
        lemma_join_front(a, rest.drop_last(), sep);
        assert(join(all, sep) =~= a + sep + join(rest, sep));
    }
}

/// The pieces of a text, joined again, are the text.
pub proof fn law_join_of_split(s: Seq<char>, c: char)
    ensures
        split(s, c).len() > 0,
        join(split(s, c), seq![c]) == s,
    decreases s.len(),
{
    lemma_first_index_bound(s, c);
    let k = first_index(s, c);
    if k < s.len() {
        law_join_of_split(s.skip(k + 1), c);
        lemma_join_front(s.take(k), split(s.skip(k + 1), c), seq![c]);
        assert(s.take(k) + seq![c] + s.skip(k + 1) =~= s);
    }
}

/// Parts without the separator, joined and split again, are the parts.
pub proof fn law_split_of_join(parts: Seq<Seq<char>>, c: char)
    requires
        parts.len() > 0,
        forall|i: int| 0 <= i < parts.len() ==> !(#[trigger] parts[i]).contains(c),
    ensures
        split(join(parts, seq![c]), c) == parts,
    decreases parts.len(),
{
    let a = parts[0];
    let s = join(parts, seq![c]);
    assert forall|j: int| 0 <= j < a.len() implies a[j] != c by {
        assert(a.contains(a[j]));
    }
    if parts.len() == 1 {
        lemma_first_index(s, c, s.len() as int);
        assert(parts =~= seq![a]);
    } else {
        let rest = parts.skip(1);
        assert(parts =~= seq![a] + rest);
        lemma_join_front(a, rest, seq![c]);
        assert(forall|j: int| 0 <= j < a.len() ==> s[j] == a[j]);
        lemma_first_index(s, c, a.len() as int);
        assert(s.take(a.len() as int) =~= a);
        assert(s.skip(a.len() as int + 1) =~= join(rest, seq![c]));
        assert forall|i: int| 0 <= i < rest.len() implies !(#[trigger] rest[i]).contains(c) by {
            assert(rest[i] == parts[i + 1]);
        }
        law_split_of_join(rest, c);
    }
}

/// No piece of a text holds the separator.
pub proof fn law_split_pieces(s: Seq<char>, c: char)
    ensures
        forall|i: int| 0 <= i < split(s, c).len() ==> !(#[trigger] split(s, c)[i]).contains(c),
    decreases s.len(),
{
    lemma_first_index_bound(s, c);
    let k = first_index(s, c);
    if k < s.len() {
        law_split_pieces(s.skip(k + 1), c);
    }
    assert forall|i: int| 0 <= i < split(s, c).len() implies !(#[trigger] split(s, c)[i]).contains(
        c,
    ) by {
        if k < s.len() && i > 0 {
            assert(split(s, c)[i] == split(s.skip(k + 1), c)[i - 1]);
        } else {
            assert(forall|j: int| 0 <= j < k ==> s[j] != c);
        }
    }
}

/// A line before a text is its first line.
pub proof fn lemma_lines_front(a: Seq<char>, s: Seq<char>)
    requires
        !a.contains('\n'),
    ensures
        lines(a + seq!['\n'] + s) == seq![without_return(a)] + lines(s),
{
    let t = a + seq!['\n'] + s;
    assert forall|j: int| 0 <= j < a.len() implies t[j] != '\n' by {
        assert(a.contains(a[j]));
    }
    lemma_first_index(t, '\n', a.len() as int);
    assert(t.take(a.len() as int) =~= a);
    assert(t.skip(a.len() as int + 1) =~= s);
}

/// A line behind a text is its last line.
pub proof fn lemma_lines_back(s: Seq<char>, b: Seq<char>)
    requires
        b.len() > 0,
        !b.contains('\n'),
    ensures
        lines(s + seq!['\n'] + b).len() > 0,
        lines(s + seq!['\n'] + b).last() == b,
    decreases s.len(),
{
    let t = s + seq!['\n'] + b;
    lemma_first_index_bound(s, '\n');
    let k = first_index(s, '\n');
    if k < s.len() {
        lemma_first_index(t, '\n', k);
        assert(t.skip(k + 1) =~= s.skip(k + 1) + seq!['\n'] + b);
        lemma_lines_back(s.skip(k + 1), b);
    } else {
        lemma_first_index(t, '\n', s.len() as int);
        assert(t.skip(s.len() as int + 1) =~= b);
        assert forall|j: int| 0 <= j < b.len() implies b[j] != '\n' by {
            assert(b.contains(b[j]));
        }
        lemma_first_index(b, '\n', b.len() as int);
        assert(lines(b) =~= seq![b]);
    }
}

} // verus!
