//! What holds of the language of patches.

use vstd::prelude::*;

use crate::error;
use crate::parser;
use crate::parser::Verb;
use crate::patch;
use crate::text;

verus! {

// ---------------------------------------------------------------------------
// Markers
// ---------------------------------------------------------------------------

/// The markers are what they are taken for.
proof fn lemma_markers()
    ensures
        parser::is_begin("=== begin"@),
        parser::is_end("=== end"@),
        !"=== begin"@.contains('\n'),
        !"=== end"@.contains('\n'),
        "=== end"@.len() > 0,
        "=== begin"@.len() > 0,
        "=== begin"@.last() != '\r',
        text::trim("=== begin"@) == "=== begin"@,
        text::trim("=== end"@) == "=== end"@,
        "=== begin"@ != "=== end"@,
        "=== begin\n"@ == "=== begin"@ + seq!['\n'],
        "\n=== end"@ == seq!['\n'] + "=== end"@,
        "\n"@ == seq!['\n'],
{
    reveal_strlit("=== begin");
    reveal_strlit("=== end");
    reveal_strlit("=== begin\n");
    reveal_strlit("\n=== end");
    reveal_strlit("\n");
    let b = "=== begin"@;
    let e = "=== end"@;
    assert(!text::is_space('='));
    assert(!text::is_space('n'));
    assert(!text::is_space('d'));
    assert(text::trim(b) == b);
    assert(text::trim(e) == e);
    assert(b.subrange(0, b.len() as int) =~= b);
    assert("=== begin\n"@ =~= b + seq!['\n']);
    assert("\n=== end"@ =~= seq!['\n'] + e);
    assert("\n"@ =~= seq!['\n']);
}

/// A patch between two markers has both of them.
proof fn lemma_between_markers(input: Seq<char>)
    ensures
        parser::any_begin(text::lines("=== begin\n"@ + input + "\n=== end"@)),
        parser::any_end(text::lines("=== begin\n"@ + input + "\n=== end"@)),
{
    lemma_markers();
    let w = "=== begin\n"@ + input + "\n=== end"@;
    let b = "=== begin"@;
    let e = "=== end"@;
    assert(w =~= b + seq!['\n'] + (input + "\n=== end"@));
    text::lemma_lines_front(b, input + "\n=== end"@);
    assert(parser::is_begin(text::lines(w)[0]));
    assert(w =~= ("=== begin\n"@ + input) + seq!['\n'] + e);
    text::lemma_lines_back("=== begin\n"@ + input, e);
    assert(parser::is_end(text::lines(w)[text::lines(w).len() - 1]));
}

/// Whether a header names the paths that its operation needs. A line that is no header needs none.
pub open spec fn names_its_paths(line: Seq<char>) -> bool {
    match parser::header_parts(line) {
        Some((Verb::Read, rest)) => text::words(rest).len() > 0,
        Some((Verb::MapDir, rest)) => text::words(rest).len() > 0,
        Some((Verb::Move, rest)) => text::words(rest).len() == 2,
        _ => true,
    }
}

/// The markers may be left out of a patch that has neither: it says what it says between them.
/// Where every header names its paths, it is read, and names no threshold.
pub proof fn law_markers_may_be_left_out(input: Seq<char>)
    requires
        !parser::any_begin(text::lines(input)),
        !parser::any_native_begin(text::lines(input)),
        !parser::any_end(text::lines(input)),
        parser::any_header(text::lines(input)),
    ensures
        parser::parsed(input) == parser::parsed("=== begin\n"@ + input + "\n=== end"@),
        (forall|i: int|
            0 <= i < text::lines(input).len() ==> names_its_paths(
                #[trigger] text::lines(input)[i],
            )) ==> {
            &&& parser::parsed(input) is Ok
            &&& parser::parsed(input)->Ok_0.threshold is None
        },
{
    lemma_between_markers(input);
    if forall|i: int|
        0 <= i < text::lines(input).len() ==> names_its_paths(#[trigger] text::lines(input)[i]) {
        lemma_markers();
        let (b, e) = ("=== begin"@, "=== end"@);
        let w = "=== begin\n"@ + input + "\n=== end"@;
        let inner = input + seq!['\n'] + e;
        assert(w =~= b + seq!['\n'] + inner);
        text::lemma_lines_front(b, inner);
        let all = text::lines(w);
        let behind = text::lines(inner);
        assert forall|i: int| 0 <= i < text::lines(input).len() implies plain(
            #[trigger] text::lines(input)[i],
        ) by {}
        lemma_lines_stay_plain(input, e);
        let n = behind.len() as int;
        assert(all =~= seq![b] + behind);
        assert(all[n] == e);
        assert forall|i: int| 0 <= i < n implies !parser::is_end(#[trigger] all[i]) by {
            if i > 0 {
                assert(all[i] == behind[i - 1]);
            }
        }
        lemma_end_index(all, 0, n);
        assert(parser::begin_index(all, 0) == Some(0int));
        assert(text::trim(b).skip(b.len() as int) =~= Seq::empty());
        assert(parser::begin_threshold(b) == Ok::<
            Option<crate::similarity::Threshold>,
            error::PatchErrorView,
        >(None));
        let body = all.subrange(1, n);
        assert forall|i: int| 0 <= i < body.len() implies names_its_paths(#[trigger] body[i]) by {
            assert(body[i] == behind[i]);
        }
        let first = parser::next_header(body, 0);
        parser::lemma_next_header(body, 0);
        lemma_operations_are_read(body, first);
        assert(parser::parsed(input) == parser::parsed_lines(all));
    }
}

/// Whether a line is no marker, and names its paths where it is a header.
spec fn plain(line: Seq<char>) -> bool {
    !parser::is_begin(line) && !parser::is_end(line) && names_its_paths(line)
}

/// The first line that ends a patch, where none before it does.
proof fn lemma_end_index(lines: Seq<Seq<char>>, from: int, at: int)
    requires
        0 <= from <= at < lines.len(),
        parser::is_end(lines[at]),
        forall|i: int| from <= i < at ==> !parser::is_end(#[trigger] lines[i]),
    ensures
        parser::end_index(lines, from) == Some(at),
    decreases at - from,
{
    if from < at {
        assert(!parser::is_end(lines[from]));
        lemma_end_index(lines, from + 1, at);
    }
}

/// Operations whose headers name their paths are read.
proof fn lemma_operations_are_read(body: Seq<Seq<char>>, at: int)
    requires
        0 <= at <= body.len(),
        at < body.len() ==> parser::is_header(body[at]),
        forall|i: int| 0 <= i < body.len() ==> names_its_paths(#[trigger] body[i]),
    ensures
        parser::operations(body, at) is Ok,
    decreases body.len() - at,
{
    if at < body.len() {
        let next = parser::next_header(body, at + 1);
        parser::lemma_next_header(body, at + 1);
        lemma_operations_are_read(body, next);
        assert(names_its_paths(body[at]));
        assert(parser::operation(body[at], body.subrange(at + 1, next)) is Ok);
    }
}

/// The lines of a text are still no markers when a line is put behind it.
proof fn lemma_lines_stay_plain(s: Seq<char>, b: Seq<char>)
    requires
        b.len() > 0,
        !b.contains('\n'),
        forall|i: int| 0 <= i < text::lines(s).len() ==> plain(#[trigger] text::lines(s)[i]),
    ensures
        ({
            let all = text::lines(s + seq!['\n'] + b);
            &&& all.len() > 0
            &&& all.last() == b
            &&& forall|i: int| 0 <= i < all.len() - 1 ==> plain(#[trigger] all[i])
        }),
    decreases s.len(),
{
    let t = s + seq!['\n'] + b;
    let all = text::lines(t);
    text::lemma_lines_back(s, b);
    text::lemma_first_index_bound(s, '\n');
    let k = text::first_index(s, '\n');
    if k < s.len() {
        text::lemma_first_index(t, '\n', k);
        assert(t.take(k) =~= s.take(k));
        let rest = s.skip(k + 1);
        assert(t.skip(k + 1) =~= rest + seq!['\n'] + b);
        let own = text::lines(s);
        assert(own == seq![text::without_return(s.take(k))] + text::lines(rest));
        assert forall|i: int| 0 <= i < text::lines(rest).len() implies plain(
            #[trigger] text::lines(rest)[i],
        ) by {
            assert(own[i + 1] == text::lines(rest)[i]);
        }
        lemma_lines_stay_plain(rest, b);
        let behind = text::lines(rest + seq!['\n'] + b);
        assert(all == seq![own[0]] + behind);
        assert forall|i: int| 0 <= i < all.len() - 1 implies plain(#[trigger] all[i]) by {
            if i > 0 {
                assert(all[i] == behind[i - 1]);
            } else {
                assert(plain(own[0]));
            }
        }
    } else {
        let n = s.len() as int;
        text::lemma_first_index(t, '\n', n);
        assert(t.take(n) =~= s);
        assert(t.skip(n + 1) =~= b);
        assert forall|j: int| 0 <= j < b.len() implies b[j] != '\n' by {
            assert(b.contains(b[j]));
        }
        text::lemma_first_index(b, '\n', b.len() as int);
        assert(text::lines(b) =~= seq![b]);
        assert(all =~= seq![text::without_return(s), b]);
        if n > 0 {
            assert(text::lines(s)[0] == s);
            lemma_plain_without_return(s);
        } else {
            lemma_empty_line_is_plain(s);
        }
    }
}

/// An empty line is no marker and no header.
proof fn lemma_empty_line_is_plain(line: Seq<char>)
    requires
        line.len() == 0,
    ensures
        plain(line),
{
    reveal_strlit("=== begin");
    reveal_strlit("=== end");
    reveal_strlit("create ");
    reveal_strlit("write ");
    reveal_strlit("update ");
    reveal_strlit("delete ");
    reveal_strlit("read ");
    reveal_strlit("view ");
    reveal_strlit("map ");
    reveal_strlit("move ");
}

/// A line that is no marker is none without the return at its end.
proof fn lemma_plain_without_return(s: Seq<char>)
    requires
        s.len() > 0,
        plain(s),
    ensures
        plain(text::without_return(s)),
{
    if s.last() == '\r' {
        lemma_trim_without_last(s);
        reveal_strlit("create ");
        reveal_strlit("write ");
        reveal_strlit("update ");
        reveal_strlit("delete ");
        reveal_strlit("read ");
        reveal_strlit("view ");
        reveal_strlit("map ");
        reveal_strlit("move ");
        lemma_prefix_without_return(s, "create "@);
        lemma_prefix_without_return(s, "write "@);
        lemma_prefix_without_return(s, "update "@);
        lemma_prefix_without_return(s, "delete "@);
        lemma_prefix_without_return(s, "read "@);
        lemma_prefix_without_return(s, "view "@);
        lemma_prefix_without_return(s, "map "@);
        lemma_prefix_without_return(s, "move "@);
    }
}

/// A return at the end of a line is no part of a word that the line starts with, nor of the words
/// behind it.
proof fn lemma_prefix_without_return(s: Seq<char>, p: Seq<char>)
    requires
        s.len() > 0,
        s.last() == '\r',
        p.len() > 0,
        p.last() != '\r',
    ensures
        text::starts_with(s.drop_last(), p) == text::starts_with(s, p),
        text::starts_with(s, p) ==> text::words(s.drop_last().skip(p.len() as int))
            == text::words(s.skip(p.len() as int)),
{
    let n = p.len() as int;
    let t = s.drop_last();
    if text::starts_with(s, p) {
        if n == s.len() {
            assert(s.take(n)[n - 1] == s.last());
        }
        assert(t.take(n) =~= s.take(n));
        assert(t.skip(n) =~= s.skip(n).drop_last());
        assert(s.skip(n).last() == s.last());
        lemma_words_without_last(s.skip(n));
    }
    if text::starts_with(t, p) {
        assert(t.take(n) =~= s.take(n));
    }
}

/// White space at the end of a text is in none of its words.
proof fn lemma_words_without_last(s: Seq<char>)
    requires
        s.len() > 0,
        text::is_space(s.last()),
    ensures
        text::words(s.drop_last()) == text::words(s),
    decreases s.len(),
{
    let t = text::trim_start(s);
    let u = text::trim_start(s.drop_last());
    lemma_start_without_last(s);
    text::lemma_trim_start(s);
    if t.len() > 0 {
        assert(t.last() == s.last());
        assert(t.len() > 1);
        lemma_word_without_last(t);
        let n = text::word_len(t) as int;
        text::lemma_word_len(t);
        assert(u.take(n) =~= t.take(n));
        assert(u.skip(n) =~= t.skip(n).drop_last());
        lemma_words_without_last(t.skip(n));
        assert(u.len() > 0);
    }
}

/// Trimming the start of a text leaves the white space at its end.
proof fn lemma_start_without_last(s: Seq<char>)
    requires
        s.len() > 0,
        text::is_space(s.last()),
    ensures
        text::trim_start(s).len() > 0 ==> text::trim_start(s.drop_last()) == text::trim_start(
            s,
        ).drop_last(),
        text::trim_start(s).len() == 0 ==> text::trim_start(s.drop_last()).len() == 0,
    decreases s.len(),
{
    if text::is_space(s[0]) {
        if s.len() > 1 {
            lemma_start_without_last(s.skip(1));
            assert(s.drop_last().skip(1) =~= s.skip(1).drop_last());
        }
    }
}

/// A word ends before white space.
proof fn lemma_word_without_last(t: Seq<char>)
    requires
        t.len() > 0,
        text::is_space(t.last()),
    ensures
        text::word_len(t.drop_last()) == text::word_len(t),
        text::word_len(t) < t.len(),
    decreases t.len(),
{
    if !text::is_space(t[0]) {
        lemma_word_without_last(t.skip(1));
        assert(t.drop_last().skip(1) =~= t.skip(1).drop_last());
    }
}

/// White space at the end of a text is trimmed with the rest.
proof fn lemma_trim_without_last(s: Seq<char>)
    requires
        s.len() > 0,
        text::is_space(s.last()),
    ensures
        text::trim(s.drop_last()) == text::trim(s),
    decreases s.len(),
{
    if text::is_space(s[0]) {
        if s.len() > 1 {
            lemma_trim_without_last(s.skip(1));
            assert(s.drop_last().skip(1) =~= s.skip(1).drop_last());
        } else {
            assert(s.drop_last() =~= s.skip(1));
        }
    }
}

/// A first marker is still one when a line is put behind the text.
proof fn lemma_begin_stays(s: Seq<char>, b: Seq<char>, i: int)
    requires
        0 <= i < text::lines(s).len(),
        parser::is_begin(text::lines(s)[i]),
    ensures
        parser::any_begin(text::lines(s + seq!['\n'] + b)),
    decreases s.len(),
{
    let t = s + seq!['\n'] + b;
    text::lemma_first_index_bound(s, '\n');
    let k = text::first_index(s, '\n');
    text::lemma_first_index(t, '\n', k);
    assert(t.take(k) =~= s.take(k));
    if k < s.len() {
        assert(t.skip(k + 1) =~= s.skip(k + 1) + seq!['\n'] + b);
        if i == 0 {
            assert(parser::is_begin(text::lines(t)[0]));
        } else {
            lemma_begin_stays(s.skip(k + 1), b, i - 1);
            let behind = text::lines(t.skip(k + 1));
            let j = choose|j: int| 0 <= j < behind.len() && parser::is_begin(#[trigger] behind[j]);
            assert(text::lines(t)[j + 1] == behind[j]);
        }
    } else {
        assert(s.take(k) =~= s);
        if s.last() == '\r' {
            lemma_trim_without_last(s);
        }
        assert(text::lines(t)[0] == text::without_return(s));
    }
}

/// The last marker may be left out.
pub proof fn law_end_may_be_left_out(input: Seq<char>)
    requires
        parser::any_begin(text::lines(input)),
        !parser::any_end(text::lines(input)),
    ensures
        parser::parsed(input) == parser::parsed(input + "\n=== end"@),
{
    lemma_markers();
    let w = input + "\n=== end"@;
    assert(w =~= input + seq!['\n'] + "=== end"@);
    text::lemma_lines_back(input, "=== end"@);
    let i = choose|i: int|
        0 <= i < text::lines(input).len() && parser::is_begin(#[trigger] text::lines(input)[i]);
    lemma_begin_stays(input, "=== end"@, i);
    assert(parser::is_end(text::lines(w)[text::lines(w).len() - 1]));
}

/// A patch that only has its last marker is read as if it began with the first.
pub proof fn law_begin_may_be_left_out(input: Seq<char>)
    requires
        !parser::any_begin(text::lines(input)),
        !parser::any_native_begin(text::lines(input)),
        parser::any_end(text::lines(input)),
        parser::any_header(text::lines(input)),
    ensures
        parser::parsed(input) == parser::parsed("=== begin\n"@ + input),
{
    lemma_markers();
    let w = "=== begin\n"@ + input;
    let b = "=== begin"@;
    assert(w =~= b + seq!['\n'] + input);
    text::lemma_lines_front(b, input);
    assert(parser::is_begin(text::lines(w)[0]));
    let i = choose|i: int|
        0 <= i < text::lines(input).len() && parser::is_end(#[trigger] text::lines(input)[i]);
    assert(text::lines(w)[i + 1] == text::lines(input)[i]);
}

/// A text without an operation and without a first marker is refused.
pub proof fn law_no_operation_no_patch(input: Seq<char>)
    requires
        !parser::any_begin(text::lines(input)),
        !parser::any_native_begin(text::lines(input)),
        parser::any_end(text::lines(input)),
        !parser::any_header(text::lines(input)),
    ensures
        parser::parsed(input) == Err::<parser::ParseView, error::PatchErrorView>(
            parser::malformed("Missing '=== begin' marker"@),
        ),
{
    lemma_no_begin(text::lines(input), 0);
}

/// Where no line is a first marker, none is found.
proof fn lemma_no_begin(lines: Seq<Seq<char>>, from: int)
    requires
        !parser::any_begin(lines),
        0 <= from <= lines.len(),
    ensures
        parser::begin_index(lines, from) is None,
    decreases lines.len() - from,
{
    if from < lines.len() {
        lemma_no_begin(lines, from + 1);
    }
}

// ---------------------------------------------------------------------------
// The native notation
// ---------------------------------------------------------------------------

/// A line holds no line feed.
proof fn lemma_line_has_no_feed(s: Seq<char>, i: int)
    requires
        0 <= i < text::lines(s).len(),
    ensures
        !text::lines(s)[i].contains('\n'),
    decreases s.len(),
{
    text::lemma_first_index_bound(s, '\n');
    let k = text::first_index(s, '\n');
    if s.len() > 0 && k < s.len() {
        if i > 0 {
            lemma_line_has_no_feed(s.skip(k + 1), i - 1);
        } else {
            assert(text::lines(s)[0] == text::without_return(s.take(k)));
        }
    }
}

/// What stands for a line of the native notation holds no line feed either.
proof fn lemma_translated_has_no_feed(line: Seq<char>)
    requires
        !line.contains('\n'),
    ensures
        !parser::from_native(line).contains('\n'),
{
    reveal_strlit("create ");
    reveal_strlit("update ");
    reveal_strlit("delete ");
    reveal_strlit("read ");
    reveal_strlit("move_to ");
    lemma_markers();
    assert forall|n: int, front: Seq<char>|
        0 <= n <= line.len() && !front.contains('\n') implies !(#[trigger] (front
        + line.skip(n))).contains('\n') by {
        let t = front + line.skip(n);
        if t.contains('\n') {
            let j = choose|j: int| 0 <= j < t.len() && t[j] == '\n';
            if j < front.len() {
                assert(front.contains(front[j]));
            } else {
                assert(line.contains(line[n + j - front.len()]));
            }
        }
    }
}

/// A part of a joined text that ends in no return is one of its lines.
proof fn lemma_part_is_a_line(parts: Seq<Seq<char>>, i: int)
    requires
        0 <= i < parts.len(),
        forall|j: int| 0 <= j < parts.len() ==> !(#[trigger] parts[j]).contains('\n'),
        parts[i].len() > 0,
        parts[i].last() != '\r',
    ensures
        text::lines(text::join(parts, seq!['\n'])).contains(parts[i]),
    decreases parts.len(),
{
    let a = parts[0];
    let whole = text::lines(text::join(parts, seq!['\n']));
    if parts.len() == 1 {
        assert forall|j: int| 0 <= j < a.len() implies a[j] != '\n' by {
            assert(a.contains(a[j]));
        }
        text::lemma_first_index(a, '\n', a.len() as int);
        assert(whole =~= seq![a]);
        assert(whole[0] == parts[i]);
    } else {
        let rest = parts.skip(1);
        assert(parts =~= seq![a] + rest);
        text::lemma_join_front(a, rest, seq!['\n']);
        text::lemma_lines_front(a, text::join(rest, seq!['\n']));
        if i == 0 {
            assert(whole[0] == parts[0]);
        } else {
            assert forall|j: int| 0 <= j < rest.len() implies !(#[trigger] rest[j]).contains(
                '\n',
            ) by {
                assert(rest[j] == parts[j + 1]);
            }
            assert(rest[i - 1] == parts[i]);
            lemma_part_is_a_line(rest, i - 1);
            let behind = text::lines(text::join(rest, seq!['\n']));
            let k = choose|k: int| 0 <= k < behind.len() && behind[k] == rest[i - 1];
            assert(whole[k + 1] == parts[i]);
        }
    }
}

/// A patch in the native notation says what its translation says.
pub proof fn law_native_is_translated(input: Seq<char>)
    ensures
        parser::parsed(parser::unified(input)) == parser::parsed(input),
{
    let lines = text::lines(input);
    if !parser::any_begin(lines) && parser::any_native_begin(lines) {
        lemma_markers();
        let parts = lines.map_values(|l: Seq<char>| parser::from_native(l));
        assert forall|j: int| 0 <= j < parts.len() implies !(#[trigger] parts[j]).contains(
            '\n',
        ) by {
            lemma_line_has_no_feed(input, j);
            lemma_translated_has_no_feed(lines[j]);
        }
        let i = choose|i: int| 0 <= i < lines.len() && parser::is_native_begin(#[trigger] lines[i]);
        assert(parts[i] == "=== begin"@);
        lemma_part_is_a_line(parts, i);
        let after = text::lines(parser::unified(input));
        let k = choose|k: int| 0 <= k < after.len() && after[k] == parts[i];
        assert(parser::is_begin(after[k]));
    }
}

// ---------------------------------------------------------------------------
// Operations
// ---------------------------------------------------------------------------

/// `view` is another word for `read`.
pub proof fn law_view_is_read(rest: Seq<char>, section: Seq<Seq<char>>)
    ensures
        parser::operation("view "@ + rest, section) == parser::operation("read "@ + rest, section),
        parser::header_parts("view "@ + rest) == Some((Verb::Read, rest)),
{
    reveal_strlit("create ");
    reveal_strlit("write ");
    reveal_strlit("update ");
    reveal_strlit("delete ");
    reveal_strlit("read ");
    reveal_strlit("view ");
    let v = "view "@ + rest;
    let r = "read "@ + rest;
    assert(v[0] == 'v' && r[0] == 'r');
    assert(v.subrange(0, 5) =~= "view "@);
    assert(r.subrange(0, 5) =~= "read "@);
    assert(v.skip(5) =~= rest);
    assert(r.skip(5) =~= rest);
    lemma_other_start(v, "create "@);
    lemma_other_start(v, "write "@);
    lemma_other_start(v, "update "@);
    lemma_other_start(v, "delete "@);
    lemma_other_start(v, "read "@);
    lemma_other_start(r, "create "@);
    lemma_other_start(r, "write "@);
    lemma_other_start(r, "update "@);
    lemma_other_start(r, "delete "@);
}

/// A text that starts with another character does not start with `p`.
proof fn lemma_other_start(s: Seq<char>, p: Seq<char>)
    requires
        s.len() > 0,
        p.len() > 0,
        s[0] != p[0],
    ensures
        !text::starts_with(s, p),
{
    if text::starts_with(s, p) {
        assert(s.subrange(0, p.len() as int)[0] == p[0]);
    }
}

/// How many of the lines from `from` on are headers.
pub open spec fn header_count(lines: Seq<Seq<char>>, from: int) -> nat
    decreases lines.len() - from,
{
    if from < 0 || from >= lines.len() {
        0
    } else {
        header_count(lines, from + 1) + if parser::is_header(lines[from]) {
            1nat
        } else {
            0nat
        }
    }
}

/// There is nothing to count before the next header.
proof fn lemma_count_from_next(lines: Seq<Seq<char>>, from: int)
    requires
        0 <= from <= lines.len(),
    ensures
        header_count(lines, parser::next_header(lines, from)) == header_count(lines, from),
    decreases lines.len() - from,
{
    if from < lines.len() && !parser::is_header(lines[from]) {
        lemma_count_from_next(lines, from + 1);
    }
}

/// A patch has one operation for each header.
pub proof fn law_one_operation_each(body: Seq<Seq<char>>, at: int)
    requires
        0 <= at <= body.len(),
        at < body.len() ==> parser::is_header(body[at]),
    ensures
        parser::operations(body, at) matches Ok(ops) ==> ops.len() == header_count(body, at),
    decreases body.len() - at,
{
    if at < body.len() {
        let next = parser::next_header(body, at + 1);
        parser::lemma_next_header(body, at + 1);
        lemma_count_from_next(body, at + 1);
        law_one_operation_each(body, next);
    }
}

/// Lines that are written with a plus sign each are the lines of the file, and the file ends
/// with a line feed.
pub proof fn law_added_lines(lines: Seq<Seq<char>>)
    requires
        lines.len() > 0,
    ensures
        parser::body_text(lines.map_values(|l: Seq<char>| "+"@ + l)) == text::join(lines, "\n"@)
            + "\n"@,
{
    reveal_strlit("+");
    let section = lines.map_values(|l: Seq<char>| "+"@ + l);
    assert(section.last() == "+"@ + lines.last());
    assert(parser::without_last_blanks(section) == section);
    assert forall|i: int| 0 <= i < section.len() implies text::starts_with(
        #[trigger] section[i],
        "+"@,
    ) by {
        assert(section[i].subrange(0, 1) =~= "+"@);
    }
    assert forall|i: int| 0 <= i < lines.len() implies #[trigger] section[i].skip(1)
        == lines[i] by {
        assert(section[i].skip(1) =~= lines[i]);
    }
    assert(section.map_values(|l: Seq<char>| l.skip(1)) =~= lines);
}

/// A line that a hunk shows with a sign is read back as what the sign says.
pub proof fn law_signed_lines(line: Seq<char>)
    ensures
        parser::diff_line("+"@ + line) == Some(patch::DiffLineView::Add(line)),
        parser::diff_line("-"@ + line) == Some(patch::DiffLineView::Remove(line)),
{
    reveal_strlit("+");
    reveal_strlit("-");
    reveal_strlit("  +");
    reveal_strlit("  -");
    let a = "+"@ + line;
    let r = "-"@ + line;
    assert(a[0] == '+' && r[0] == '-');
    lemma_other_start(a, "  -"@);
    lemma_other_start(a, "  +"@);
    lemma_other_start(a, "-"@);
    lemma_other_start(r, "  -"@);
    lemma_other_start(r, "  +"@);
    assert(a.subrange(0, 1) =~= "+"@);
    assert(r.subrange(0, 1) =~= "-"@);
    assert(a.skip(1) =~= line);
    assert(r.skip(1) =~= line);
}

} // verus!
