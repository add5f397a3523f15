//! What holds of reading, said of the text of the file alone.

use vstd::prelude::*;

use crate::numbers;
use crate::parser;
use crate::patterns;
use crate::reader;
use crate::reading;
use crate::sizes;
use crate::text;
use crate::text_laws;

verus! {

// ---------------------------------------------------------------------------
// Lines
// ---------------------------------------------------------------------------

/// The first line that is asked for, from zero.
pub open spec fn asked_offset(request: parser::ReadView) -> int {
    match request.offset {
        Some(n) => n as int,
        None => 0,
    }
}

/// The most lines that are shown: as many as are asked for, else a thousand.
pub open spec fn asked_lines(request: parser::ReadView) -> int {
    match request.limit {
        Some(n) => n as int,
        None => 1000,
    }
}

/// How many lines are shown of a text from an offset inside it on.
pub open spec fn lines_shown(request: parser::ReadView, content: Seq<char>) -> int {
    let rest = text_laws::count(content, '\n') + 1 - asked_offset(request);
    if asked_lines(request) < rest {
        asked_lines(request)
    } else {
        rest
    }
}

/// Whether a text is that of `head`, `body` and `tail`, of which the head is the first `offset`
/// lines with their ends, and the body is whole lines.
pub open spec fn parted(
    content: Seq<char>,
    head: Seq<char>,
    body: Seq<char>,
    tail: Seq<char>,
    offset: int,
) -> bool {
    &&& content == head + body + tail
    &&& text_laws::count(head, '\n') == offset
    &&& head.len() > 0 ==> head.last() == '\n'
    &&& tail.len() == 0 || tail[0] == '\n'
}

/// Whether a text is `body` behind its first `offset` lines and before the rest, of which something
/// is left unless `whole`.
pub open spec fn is_parted(content: Seq<char>, body: Seq<char>, offset: int, whole: bool) -> bool {
    exists|head: Seq<char>, tail: Seq<char>|
        #[trigger] parted(content, head, body, tail, offset) && (tail.len() == 0 <==> whole)
}

/// Pieces that are joined have so many separators.
proof fn lemma_joined_count(parts: Seq<Seq<char>>, c: char)
    requires
        parts.len() > 0,
        forall|i: int| 0 <= i < parts.len() ==> !(#[trigger] parts[i]).contains(c),
    ensures
        text_laws::count(text::join(parts, seq![c]), c) == parts.len() - 1,
{
    text_laws::law_piece_count(text::join(parts, seq![c]), c);
    text::law_split_of_join(parts, c);
}

/// The pieces of a text from the first to the last but so many.
proof fn lemma_parted(content: Seq<char>, start: int, n: int)
    requires
        0 <= start,
        0 < n,
        start + n <= text::split(content, '\n').len(),
    ensures
        ({
            let all = text::split(content, '\n');
            let body = text::join(all.subrange(start, start + n), "\n"@);
            &&& text_laws::count(body, '\n') == n - 1
            &&& is_parted(content, body, start, start + n == all.len())
        }),
{
    reveal_strlit("\n");
    assert("\n"@ =~= seq!['\n']);
    let sep = seq!['\n'];
    let all = text::split(content, '\n');
    text::law_join_of_split(content, '\n');
    text::law_split_pieces(content, '\n');
    let (front, mid, back) = (all.take(start), all.subrange(start, start + n), all.skip(start + n));
    let body = text::join(mid, sep);
    assert forall|i: int| 0 <= i < mid.len() implies !(#[trigger] mid[i]).contains('\n') by {
        assert(mid[i] == all[start + i]);
    }
    assert forall|i: int| 0 <= i < front.len() implies !(#[trigger] front[i]).contains('\n') by {
        assert(front[i] == all[i]);
    }
    lemma_joined_count(mid, '\n');
    let rest = all.skip(start);
    assert(rest =~= mid + back);
    let tail = if back.len() == 0 {
        Seq::empty()
    } else {
        sep + text::join(back, sep)
    };
    if back.len() == 0 {
        assert(rest =~= mid);
        assert(text::join(rest, sep) =~= body + tail);
    } else {
        text_laws::law_joined(mid, back, Seq::empty(), sep);
        assert(text::join(rest, sep) =~= body + tail);
    }
    let head = if start == 0 {
        Seq::empty()
    } else {
        text::join(front, sep) + sep
    };
    assert(all =~= front + rest);
    if start == 0 {
        assert(all =~= rest);
        assert(content =~= head + body + tail);
    } else {
        text_laws::law_joined(front, rest, Seq::empty(), sep);
        assert(content =~= head + body + tail);
        lemma_joined_count(front, '\n');
        text_laws::lemma_count_sum(text::join(front, sep), sep, '\n');
        text_laws::lemma_count_one('\n', '\n');
    }
    assert(parted(content, head, body, tail, start));
}

/// Where no symbols are asked for, the first line that is shown is the one behind as many lines as
/// the offset says, whether or not a limit is given: what is shown, behind the first lines of the
/// file, is a start of the file's text. So many lines are shown as are asked for, a thousand where
/// no number is, or as many as there are.
pub proof fn law_lines_from_the_offset(request: parser::ReadView, content: Seq<char>)
    requires
        request.symbols is None,
        asked_offset(request) <= text_laws::count(content, '\n'),
        asked_lines(request) > 0,
    ensures
        ({
            let shown = reading::shown_text(request, content);
            &&& text_laws::count(shown.body, '\n') + 1 == lines_shown(request, content)
            &&& is_parted(
                content,
                shown.body,
                asked_offset(request),
                asked_offset(request) + asked_lines(request) > text_laws::count(content, '\n'),
            )
        }),
{
    text_laws::law_piece_count(content, '\n');
    let (o, n) = (asked_offset(request), lines_shown(request, content));
    lemma_parted(content, o, n);
    let all = text::split(content, '\n');
    let body = text::join(all.subrange(o, o + n), "\n"@);
    assert(reading::shown_text(request, content).body == body);
    assert(is_parted(content, body, o, o + n == all.len()));
}

/// The label says the numbers of the first and the last line that are shown, from one, and how many
/// lines there are: as many as line feeds, and one more where the text does not end with one.
pub proof fn law_label_of_lines(request: parser::ReadView, content: Seq<char>)
    requires
        request.symbols is None,
        asked_offset(request) <= text_laws::count(content, '\n'),
        asked_lines(request) > 0,
    ensures
        reading::shown_text(request, content).label == "[lines "@ + numbers::decimal(
            (asked_offset(request) + 1) as nat,
        ) + "-"@ + numbers::decimal(
            (asked_offset(request) + lines_shown(request, content)) as nat,
        ) + " of "@ + numbers::decimal(
            (text_laws::count(content, '\n') + (if content.len() == 0 || content.last() == '\n' {
                0int
            } else {
                1
            })) as nat,
        ) + "]"@,
{
    text_laws::law_piece_count(content, '\n');
    text_laws::law_line_count(content);
}

/// Nothing is shown where no line is asked for, nor from an offset behind the last line.
pub proof fn law_no_lines(request: parser::ReadView, content: Seq<char>)
    requires
        request.symbols is None,
        asked_offset(request) > text_laws::count(content, '\n') || request.limit == Some(0usize),
    ensures
        reading::shown_text(request, content).body.len() == 0,
{
    text_laws::law_piece_count(content, '\n');
    let all = text::split(content, '\n');
    if asked_offset(request) <= text_laws::count(content, '\n') {
        let o = asked_offset(request);
        assert(all.subrange(o, o).len() == 0);
    }
}

/// A file is said to be cut off exactly where it has more than a thousand lines and neither a
/// number of lines nor symbols are asked for.
pub proof fn law_cut_is_said(request: parser::ReadView, content: Seq<char>)
    ensures
        (reading::shown_text(request, content).notice.len() > 0) <==> (request.symbols is None
            && request.limit is None && text::lines(content).len() > 1000),
        reading::shown_text(request, content).notice.len() > 0 ==> reading::shown_text(
            request,
            content,
        ).notice == "\n... [truncated at 1000 lines - use limit or symbols for full file]"@,
{
    reveal_strlit("\n... [truncated at 1000 lines - use limit or symbols for full file]");
    reveal_strlit("\n... [truncated at ");
    reveal_strlit(" lines - use limit or symbols for full file]");
    reveal_with_fuel(numbers::decimal, 5);
    let whole = "\n... [truncated at "@ + numbers::decimal(1000)
        + " lines - use limit or symbols for full file]"@;
    assert(numbers::decimal(1000) =~= seq!['1', '0', '0', '0']);
    assert(whole =~= "\n... [truncated at 1000 lines - use limit or symbols for full file]"@);
}

// ---------------------------------------------------------------------------
// Symbols
// ---------------------------------------------------------------------------

/// The characters of `k` lines from `start` on.
pub open spec fn run(lines: Seq<Seq<char>>, start: int, k: int) -> Seq<char>
    decreases k,
{
    if k <= 0 {
        Seq::empty()
    } else {
        run(lines, start, k - 1) + lines[start + k - 1]
    }
}

/// A text from its first opening brace on.
pub open spec fn from_brace(s: Seq<char>) -> Seq<char>
    decreases s.len(),
{
    if s.len() == 0 || s[0] == '{' {
        s
    } else {
        from_brace(s.skip(1))
    }
}

/// Whether a text has an opening brace, and as many closing braces behind it as opening ones.
pub open spec fn balanced(s: Seq<char>) -> bool {
    &&& text_laws::count(s, '{') > 0
    &&& text_laws::count(from_brace(s), '{') == text_laws::count(from_brace(s), '}')
}

/// The first opening brace, with characters more.
proof fn lemma_from_brace(s: Seq<char>, c: char)
    ensures
        s.contains('{') ==> from_brace(s.push(c)) == from_brace(s).push(c),
        !s.contains('{') && c == '{' ==> from_brace(s.push(c)) == seq!['{'],
        !s.contains('{') ==> from_brace(s).len() == 0,
        !s.contains('{') && c != '{' ==> from_brace(s.push(c)).len() == 0,
    decreases s.len(),
{
    let t = s.push(c);
    if s.len() > 0 && s[0] != '{' {
        lemma_from_brace(s.skip(1), c);
        assert(t.skip(1) =~= s.skip(1).push(c));
        assert(t[0] == s[0]);
        if s.contains('{') {
            let j = choose|j: int| 0 <= j < s.len() && s[j] == '{';
            assert(s.skip(1)[j - 1] == '{');
        }
        if s.skip(1).contains('{') {
            let j = choose|j: int| 0 <= j < s.skip(1).len() && s.skip(1)[j] == '{';
            assert(s[j + 1] == '{');
        }
    } else if s.len() > 0 {
        assert(s[0] == '{');
        assert(t[0] == s[0]);
    } else {
        assert(t =~= seq![c]);
        assert(t.skip(1) =~= Seq::<char>::empty());
        reveal_with_fuel(from_brace, 2);
    }
}

/// What a count of braces says of the text it is of.
spec fn counted(b: reader::Braces, s: Seq<char>) -> bool {
    &&& b.opened == s.contains('{')
    &&& b.depth == text_laws::count(from_brace(s), '{') - text_laws::count(from_brace(s), '}')
}

/// The braces of a text with a line more.
proof fn lemma_counted_line(b: reader::Braces, s: Seq<char>, line: Seq<char>, k: int)
    requires
        counted(b, s),
        0 <= k <= line.len(),
    ensures
        counted(reader::brace_line(b, line, k), s + line.take(k)),
    decreases k,
{
    if k > 0 {
        lemma_counted_line(b, s, line, k - 1);
        let before = s + line.take(k - 1);
        let c = line[k - 1];
        let after = s + line.take(k);
        assert(after =~= before.push(c));
        lemma_from_brace(before, c);
        assert(after.contains('{') == (before.contains('{') || c == '{')) by {
            if before.contains('{') {
                let j = choose|j: int| 0 <= j < before.len() && before[j] == '{';
                assert(after[j] == '{');
            }
            if c == '{' {
                assert(after[before.len() as int] == '{');
            }
            if after.contains('{') && c != '{' {
                let j = choose|j: int| 0 <= j < after.len() && after[j] == '{';
                assert(before[j] == '{');
            }
        }
        let f = from_brace(before);
        assert(f.push(c).drop_last() =~= f);
        assert(seq!['{'].drop_last() =~= Seq::<char>::empty());
        reveal_with_fuel(text_laws::count, 2);
        if !before.contains('{') {
            assert(f =~= Seq::<char>::empty());
            if c != '{' {
                assert(from_brace(after) =~= Seq::<char>::empty());
            }
        }
    } else {
        assert(s + line.take(0) =~= s);
    }
}

/// The braces of so many lines.
proof fn lemma_counted(lines: Seq<Seq<char>>, start: int, k: int)
    requires
        0 <= k,
    ensures
        counted(reader::brace_lines(lines, start, k), run(lines, start, k)),
    decreases k,
{
    if k > 0 {
        lemma_counted(lines, start, k - 1);
        let line = lines[start + k - 1];
        lemma_counted_line(
            reader::brace_lines(lines, start, k - 1),
            run(lines, start, k - 1),
            line,
            line.len() as int,
        );
        assert(line.take(line.len() as int) =~= line);
    } else {
        assert(from_brace(Seq::empty()) =~= Seq::<char>::empty());
    }
}

/// Whether so many lines are balanced.
proof fn lemma_balanced(lines: Seq<Seq<char>>, start: int, k: int)
    requires
        0 <= k,
    ensures
        balanced(run(lines, start, k)) == (reader::brace_lines(lines, start, k).opened
            && reader::brace_lines(lines, start, k).depth == 0),
{
    lemma_counted(lines, start, k);
    text_laws::lemma_count_none(run(lines, start, k), '{');
}

/// How far a block goes, from a number of lines that do not end it on.
proof fn lemma_block_end(lines: Seq<Seq<char>>, start: int, k: int)
    requires
        0 <= start,
        0 <= k <= 1000,
        start + k <= lines.len(),
    ensures
        ({
            let (n, cut) = reader::brace_extent(lines, start, k);
            &&& k <= n <= 1001 && start + n <= lines.len()
            &&& forall|m: int| k < m < n ==> !balanced(#[trigger] run(lines, start, m))
            &&& cut ==> n == 1001 && !balanced(run(lines, start, n))
            &&& !cut && start + n < lines.len() ==> k < n && balanced(run(lines, start, n))
        }),
    decreases lines.len() - start - k,
{
    if start + k < lines.len() {
        lemma_balanced(lines, start, k + 1);
        let b = reader::brace_lines(lines, start, k + 1);
        if !(b.opened && b.depth == 0) && k + 1 <= 1000 {
            lemma_block_end(lines, start, k + 1);
        }
    }
}

/// The definition that is shown of a symbol ends with the first line after which there was an
/// opening brace and there are as many closing as opening braces, counted from the first opening
/// brace on. No shorter run of whole lines has that. It goes on to the end of the text where none
/// has, and is cut off, with a note, behind a thousand lines and one.
pub proof fn law_block_ends_with_its_braces(
    lines: Seq<Seq<char>>,
    language: Seq<char>,
    name: Seq<char>,
    start: int,
)
    requires
        language != "python"@,
        0 <= start < lines.len(),
    ensures
        exists|n: int|
            {
                &&& 1 <= n <= 1001
                &&& start + n <= lines.len()
                &&& forall|m: int| 1 <= m < n ==> !balanced(#[trigger] run(lines, start, m))
                &&& balanced(run(lines, start, n)) || start + n == lines.len() || n == 1001
                &&& reader::symbol_at(lines, language, name, Some(start)) == "// symbol: "@ + name
                    + "\n"@ + text::join(
                    if n == 1001 && !balanced(#[trigger] run(lines, start, n)) {
                        lines.subrange(start, start + n).push(
                            "// ... [symbol body truncated at 1000 lines]"@,
                        )
                    } else {
                        lines.subrange(start, start + n)
                    },
                    "\n"@,
                )
            },
{
    lemma_block_end(lines, start, 0);
    let (n, cut) = reader::brace_extent(lines, start, 0);
    lemma_balanced(lines, start, 1);
    lemma_cut_off(lines, start, 0);
    assert(run(lines, start, n) == run(lines, start, n));
}

/// When a block is cut off.
proof fn lemma_cut_off(lines: Seq<Seq<char>>, start: int, k: int)
    requires
        0 <= start,
        0 <= k <= 1000,
        start + k <= lines.len(),
    ensures
        ({
            let (n, cut) = reader::brace_extent(lines, start, k);
            n == 1001 ==> cut == !balanced(run(lines, start, n))
        }),
        start + k < lines.len() ==> reader::brace_extent(lines, start, k).0 > k,
    decreases lines.len() - start - k,
{
    if start + k < lines.len() {
        lemma_balanced(lines, start, k + 1);
        let b = reader::brace_lines(lines, start, k + 1);
        if !(b.opened && b.depth == 0) && k + 1 <= 1000 {
            lemma_cut_off(lines, start, k + 1);
            lemma_block_end(lines, start, k + 1);
        }
    }
}

/// Whether a line is one of an indented block: it is blank, or indented more than the first.
pub open spec fn inside_block(first: Seq<char>, line: Seq<char>) -> bool {
    text_laws::blank(line) || reader::indent(line) > reader::indent(first)
}

/// A line is blank where nothing is left of it without the white space at its ends.
pub proof fn lemma_blank(line: Seq<char>)
    ensures
        text::trim(line).len() == 0 <==> text_laws::blank(line),
{
    text_laws::law_trimmed_start(line);
    let t = text::trim_start(line);
    text_laws::law_trimmed_end(t);
    if text_laws::blank(line) {
        let none = Seq::<char>::empty();
        text_laws::law_trimmed(line, none, none);
        assert(line + none + none =~= line);
    } else if t.len() == 0 {
        assert(line.take(line.len() as int) =~= line);
    } else {
        if text::trim_end(t).len() == 0 {
            assert(t.skip(0) =~= t);
            assert(text::is_space(t[0]));
        }
    }
}

/// How much a line is indented: the white space at its start, in bytes.
pub proof fn law_indent(sp: Seq<char>, rest: Seq<char>)
    requires
        text_laws::blank(sp),
        rest.len() > 0,
        !text::is_space(rest[0]),
    ensures
        reader::indent(sp + rest) == sizes::byte_len(sp),
        (forall|i: int| 0 <= i < sp.len() ==> sp[i] == ' ' || sp[i] == '\t') ==> reader::indent(
            sp + rest,
        ) == sp.len(),
{
    let s = sp + rest;
    lemma_start_of(sp, rest);
    sizes::lemma_byte_len_add(sp, rest);
    if forall|i: int| 0 <= i < sp.len() ==> sp[i] == ' ' || sp[i] == '\t' {
        lemma_plain_size(sp);
    }
}

/// White space at the start goes.
proof fn lemma_start_of(sp: Seq<char>, rest: Seq<char>)
    requires
        text_laws::blank(sp),
        rest.len() > 0,
        !text::is_space(rest[0]),
    ensures
        text::trim_start(sp + rest) == rest,
    decreases sp.len(),
{
    if sp.len() > 0 {
        assert((sp + rest)[0] == sp[0]);
        assert((sp + rest).skip(1) =~= sp.skip(1) + rest);
        assert forall|i: int| 0 <= i < sp.skip(1).len() implies text::is_space(
            #[trigger] sp.skip(1)[i],
        ) by {
            assert(sp.skip(1)[i] == sp[i + 1]);
        }
        lemma_start_of(sp.skip(1), rest);
    } else {
        assert(sp + rest =~= rest);
    }
}

/// Spaces and tabs take a byte each.
proof fn lemma_plain_size(sp: Seq<char>)
    requires
        forall|i: int| 0 <= i < sp.len() ==> sp[i] == ' ' || sp[i] == '\t',
    ensures
        sizes::byte_len(sp) == sp.len(),
    decreases sp.len(),
{
    if sp.len() > 0 {
        assert forall|i: int| 0 <= i < sp.skip(1).len() implies sp.skip(1)[i] == ' '
            || sp.skip(1)[i] == '\t' by {
            assert(sp.skip(1)[i] == sp[i + 1]);
        }
        lemma_plain_size(sp.skip(1));
        assert(sp[0] == ' ' || sp[0] == '\t');
    }
}

/// How far an indented block goes.
proof fn lemma_indent_end(lines: Seq<Seq<char>>, start: int, k: int)
    requires
        0 <= start,
        1 <= k,
        start + k <= lines.len(),
    ensures
        ({
            let (n, cut) = reader::indent_extent(lines, start, k);
            &&& k <= n && start + n <= lines.len()
            &&& forall|m: int|
                k <= m < n ==> inside_block(lines[start], #[trigger] lines[start + m])
            &&& !cut && start + n < lines.len() ==> !inside_block(lines[start], lines[start + n])
            &&& cut ==> n > 1000 && k < n && !text_laws::blank(lines[start + n - 1])
            &&& forall|m: int|
                k <= m && 1000 <= m < (if cut {
                    n - 1
                } else {
                    n
                }) ==> text_laws::blank(#[trigger] lines[start + m])
        }),
    decreases lines.len() - start - k,
{
    if start + k < lines.len() {
        let line = lines[start + k];
        lemma_blank(line);
        if text_laws::blank(line) {
            lemma_indent_end(lines, start, k + 1);
        } else if reader::indent(line) > reader::indent(lines[start]) && k + 1 <= 1000 {
            lemma_indent_end(lines, start, k + 1);
        }
    }
}

/// So many lines from `start` on, with a note where they are cut off.
pub open spec fn block_of_lines(
    lines: Seq<Seq<char>>,
    start: int,
    n: int,
    cut: bool,
    note: Seq<char>,
) -> Seq<char> {
    text::join(
        if cut {
            lines.subrange(start, start + n).push(note)
        } else {
            lines.subrange(start, start + n)
        },
        "\n"@,
    )
}

/// The definition that is shown of a symbol of a language of indented blocks goes on as long as
/// lines are blank or indented more than the first. It is cut off, with a note, at the first line
/// behind a thousand that is not blank.
pub proof fn law_block_ends_with_its_indent(
    lines: Seq<Seq<char>>,
    name: Seq<char>,
    start: int,
)
    requires
        0 <= start < lines.len(),
    ensures
        exists|n: int, cut: bool|
            {
                &&& 1 <= n
                &&& start + n <= lines.len()
                &&& forall|m: int|
                    1 <= m < n ==> inside_block(lines[start], #[trigger] lines[start + m])
                &&& cut || start + n == lines.len() || !inside_block(
                    lines[start],
                    lines[start + n],
                )
                &&& cut ==> n > 1000 && !text_laws::blank(lines[start + n - 1])
                &&& forall|m: int|
                    1000 <= m < (if cut {
                        n - 1
                    } else {
                        n
                    }) ==> text_laws::blank(#[trigger] lines[start + m])
                &&& reader::symbol_at(lines, "python"@, name, Some(start)) == "// symbol: "@ + name
                    + "\n"@ + #[trigger] block_of_lines(
                    lines,
                    start,
                    n,
                    cut,
                    "    # ... [symbol body truncated at 1000 lines]"@,
                )
            },
{
    lemma_indent_end(lines, start, 1);
    let (n, cut) = reader::indent_extent(lines, start, 1);
    assert(reader::indent_block(lines, start) == block_of_lines(
        lines,
        start,
        n,
        cut,
        "    # ... [symbol body truncated at 1000 lines]"@,
    ));
}

/// A line and the next, as one text.
pub open spec fn with_next(lines: Seq<Seq<char>>, k: int) -> Seq<char> {
    if k + 1 < lines.len() {
        lines[k] + seq!['\n'] + lines[k + 1]
    } else {
        lines[k]
    }
}

/// Whether one of the patterns finds something that starts in a line, and may go on in the next.
pub open spec fn opens(lines: Seq<Seq<char>>, list: Seq<Seq<char>>, k: int) -> bool {
    exists|i: int|
        0 <= i < list.len() && patterns::compiles(#[trigger] list[i]) && (patterns::match_start(
            list[i],
            with_next(lines, k),
        ) matches Some(at) && at < sizes::byte_len(lines[k]))
}

/// The two lines that are looked at.
proof fn lemma_two_lines(lines: Seq<Seq<char>>, k: int)
    requires
        0 <= k < lines.len(),
    ensures
        reader::two_lines(lines, k) == with_next(lines, k),
{
    reveal_strlit("\n");
    assert("\n"@ =~= seq!['\n']);
    if k + 1 < lines.len() {
        let part = lines.subrange(k, k + 2);
        assert(part =~= seq![lines[k], lines[k + 1]]);
        assert(part.drop_last() =~= seq![lines[k]]);
        reveal_with_fuel(text::join, 3);
    } else {
        assert(lines.subrange(k, k + 1) =~= seq![lines[k]]);
        reveal_with_fuel(text::join, 2);
    }
}

/// A symbol is looked for from the first line on, and is found in the first line that opens its
/// definition. Only where no line does is it said not to be there.
pub proof fn law_first_opening(lines: Seq<Seq<char>>, list: Seq<Seq<char>>, from: int)
    requires
        0 <= from <= lines.len(),
    ensures
        match reader::opening_line(lines, list, from) {
            Some(k) => from <= k < lines.len() && opens(lines, list, k) && forall|j: int|
                from <= j < k ==> !opens(lines, list, j),
            None => forall|j: int| from <= j < lines.len() ==> !opens(lines, list, j),
        },
    decreases lines.len() - from,
{
    if from < lines.len() {
        lemma_two_lines(lines, from);
        let here = reader::any_found(
            list,
            reader::two_lines(lines, from),
            sizes::byte_len(lines[from]) as int,
        );
        assert(here == opens(lines, list, from)) by {
            if here {
                let i = choose|i: int|
                    0 <= i < list.len() && patterns::compiles(#[trigger] list[i])
                        && reader::starts_within(
                        patterns::match_start(list[i], reader::two_lines(lines, from)),
                        sizes::byte_len(lines[from]) as int,
                    );
                assert(patterns::compiles(list[i]));
            }
            if opens(lines, list, from) {
                let i = choose|i: int|
                    0 <= i < list.len() && patterns::compiles(#[trigger] list[i]) && (
                    patterns::match_start(list[i], with_next(lines, from)) matches Some(at) && at
                        < sizes::byte_len(lines[from]));
                assert(patterns::compiles(list[i]));
            }
        }
        if !here {
            law_first_opening(lines, list, from + 1);
        }
    }
}

/// A symbol without a definition is said not to be there, and several symbols are shown one behind
/// the other, in the order in which they are asked for, with an empty line between them.
pub proof fn law_symbols_in_order(
    content: Seq<char>,
    language: Seq<char>,
    first: Seq<Seq<char>>,
    second: Seq<Seq<char>>,
    name: Seq<char>,
)
    ensures
        first.len() > 0 && second.len() > 0 ==> reader::symbols_text(
            content,
            language,
            first + second,
        ) == reader::symbols_text(content, language, first) + seq!['\n', '\n']
            + reader::symbols_text(content, language, second),
        reader::symbols_text(content, language, seq![name]) == reader::symbol_text(
            text::lines(content),
            language,
            name,
        ),
        (forall|k: int|
            0 <= k < text::lines(content).len() ==> !opens(
                text::lines(content),
                reader::openers(language, patterns::escaped(name)),
                k,
            )) ==> reader::symbols_text(content, language, seq![name]) == "// symbol "@ + name
            + ": NOT FOUND"@,
{
    let f = |name: Seq<char>| reader::symbol_text(text::lines(content), language, name);
    let (a, b) = (first.map_values(f), second.map_values(f));
    reveal_strlit("\n\n");
    assert("\n\n"@ =~= seq!['\n', '\n']);
    assert((first + second).map_values(f) =~= a + b);
    text_laws::law_joined(a, b, f(name), "\n\n"@);
    assert(seq![name].map_values(f) =~= seq![f(name)]);
    law_first_opening(
        text::lines(content),
        reader::openers(language, patterns::escaped(name)),
        0,
    );
}

/// Where symbols are asked for, they alone are shown, in the language that is named, or that of the
/// file's path.
pub proof fn law_symbols_are_shown(request: parser::ReadView, content: Seq<char>)
    requires
        request.symbols is Some,
        request.symbols->0.len() > 0,
    ensures
        ({
            let shown = reading::shown_text(request, content);
            &&& shown.label == "[symbols]"@
            &&& shown.notice.len() == 0
            &&& request.language is Some ==> shown.body == reader::symbols_text(
                content,
                request.language->0,
                request.symbols->0,
            )
            &&& request.language is None ==> shown.body == reader::symbols_text(
                content,
                reading::inferred(request.path),
                request.symbols->0,
            )
        }),
{
}

/// The languages that are known by the extensions of their files.
pub proof fn law_languages(ext: Seq<char>)
    ensures
        reading::language_of("rs"@) == "rust"@,
        reading::language_of("py"@) == "python"@,
        reading::language_of("ts"@) == "typescript"@,
        reading::language_of("tsx"@) == "typescript"@,
        reading::language_of("js"@) == "javascript"@,
        reading::language_of("jsx"@) == "javascript"@,
        reading::language_of("mjs"@) == "javascript"@,
        reading::language_of("cjs"@) == "javascript"@,
        reading::language_of("go"@) == "go"@,
        ext.len() == 0 || ext.len() > 3 ==> reading::language_of(ext) == "unknown"@,
{
    reveal_strlit("rs");
    reveal_strlit("py");
    reveal_strlit("ts");
    reveal_strlit("tsx");
    reveal_strlit("js");
    reveal_strlit("jsx");
    reveal_strlit("mjs");
    reveal_strlit("cjs");
    reveal_strlit("go");
    assert("rs"@[0] == 'r' && "py"@[0] == 'p' && "ts"@[0] == 't' && "tsx"@[0] == 't' && "js"@[0]
        == 'j' && "jsx"@[0] == 'j' && "mjs"@[0] == 'm' && "cjs"@[0] == 'c' && "go"@[0] == 'g');
}

/// The definitions of Rust that are found by a name: functions, structures, implementations,
/// enumerations, types and traits, public or not.
pub proof fn law_rust_openers(e: Seq<char>)
    ensures
        ({
            let list = reader::openers("rust"@, e);
            &&& list.contains("(?m)(pub\\s+)?(async\\s+)?fn\\s+"@ + e + "\\s*[(<]"@)
            &&& list.contains("(?m)(pub\\s+)?struct\\s+"@ + e + "\\s*[\\{<]"@)
            &&& list.contains(
                "(?m)(pub\\s+)?impl(\\s+\\S+\\s+for)?\\s+"@ + e + "\\s*[\\{<]"@,
            )
            &&& list.contains("(?m)(pub\\s+)?enum\\s+"@ + e + "\\s*[\\{<]"@)
            &&& list.contains("(?m)(pub\\s+)?type\\s+"@ + e + "\\s*="@)
            &&& list.contains("(?m)(pub\\s+)?trait\\s+"@ + e + "\\s*\\{"@)
        }),
{
    let list = reader::openers("rust"@, e);
    assert(list[0] == "(?m)(pub\\s+)?(async\\s+)?fn\\s+"@ + e + "\\s*[(<]"@);
    assert(list[1] == "(?m)(pub\\s+)?struct\\s+"@ + e + "\\s*[\\{<]"@);
    assert(list[2] == "(?m)(pub\\s+)?impl(\\s+\\S+\\s+for)?\\s+"@ + e + "\\s*[\\{<]"@);
    assert(list[4] == "(?m)(pub\\s+)?enum\\s+"@ + e + "\\s*[\\{<]"@);
    assert(list[5] == "(?m)(pub\\s+)?type\\s+"@ + e + "\\s*="@);
    assert(list[6] == "(?m)(pub\\s+)?trait\\s+"@ + e + "\\s*\\{"@);
}

/// The definitions of other languages that are found by a name.
pub proof fn law_other_openers(language: Seq<char>, e: Seq<char>)
    ensures
        reader::openers("python"@, e).contains("(?m)(async\\s+)?def\\s+"@ + e + "\\s*\\("@),
        reader::openers("python"@, e).contains("(?m)class\\s+"@ + e + "\\s*[:(]"@),
        reader::openers("go"@, e).contains(
            "(?m)func\\s+(\\([^)]+\\)\\s+)?"@ + e + "\\s*\\("@,
        ),
        reader::openers("javascript"@, e) == reader::openers("typescript"@, e),
        reader::openers("typescript"@, e).contains(
            "(?m)(export\\s+)?(async\\s+)?function\\s+"@ + e + "\\s*[\\(<]"@,
        ),
        reader::openers("typescript"@, e).contains(
            "(?m)(export\\s+)?class\\s+"@ + e + "\\s*[\\{<(]"@,
        ),
        reader::openers("typescript"@, e).contains(
            "(?m)(export\\s+)?(const|let|var)\\s+"@ + e + "\\s*="@,
        ),
        language.len() != 4 && language.len() != 6 && language.len() != 10 && language.len() != 2
            ==> reader::openers(language, e).contains(
            "(?m)(function|fn|def|class|struct|impl|type|func)\\s+"@ + e,
        ),
{
    reveal_strlit("rust");
    reveal_strlit("python");
    reveal_strlit("typescript");
    reveal_strlit("javascript");
    reveal_strlit("go");
    assert("typescript"@[0] == 't' && "javascript"@[0] == 'j' && "python"@[0] == 'p' && "rust"@[0]
        == 'r' && "go"@[0] == 'g');
    let p = reader::openers("python"@, e);
    assert(p[0] == "(?m)(async\\s+)?def\\s+"@ + e + "\\s*\\("@);
    assert(p[1] == "(?m)class\\s+"@ + e + "\\s*[:(]"@);
    let t = reader::openers("typescript"@, e);
    assert(t[0] == "(?m)(export\\s+)?(async\\s+)?function\\s+"@ + e + "\\s*[\\(<]"@);
    assert(t[1] == "(?m)(export\\s+)?class\\s+"@ + e + "\\s*[\\{<(]"@);
    assert(t[4] == "(?m)(export\\s+)?(const|let|var)\\s+"@ + e + "\\s*="@);
    let g = reader::openers("go"@, e);
    assert(g[0] == "(?m)func\\s+(\\([^)]+\\)\\s+)?"@ + e + "\\s*\\("@);
    let o = reader::openers(language, e);
    if language.len() != 4 && language.len() != 6 && language.len() != 10 && language.len() != 2 {
        assert(o[0] == "(?m)(function|fn|def|class|struct|impl|type|func)\\s+"@ + e);
    }
}

/// The lines of a text from an offset inside it on, at most as many as the limit says, or all of
/// them: they stand in the text behind as many lines as the offset says.
pub proof fn law_line_range(content: Seq<char>, offset: usize, limit: Option<usize>)
    requires
        offset <= text_laws::count(content, '\n'),
        limit is Some ==> limit->0 > 0,
    ensures
        ({
            let (body, first, last) = reader::line_range(content, Some(offset), limit);
            let rest = text_laws::count(content, '\n') + 1 - offset;
            let n = if limit is Some && limit->0 < rest {
                limit->0 as int
            } else {
                rest
            };
            &&& first == offset + 1
            &&& last == offset + n
            &&& text_laws::count(body, '\n') + 1 == n
            &&& is_parted(content, body, offset as int, n == rest)
        }),
        reader::line_range(content, None, limit) == reader::line_range(content, Some(0), limit),
{
    text_laws::law_piece_count(content, '\n');
    let rest = text_laws::count(content, '\n') + 1 - offset;
    let n = if limit is Some && limit->0 < rest {
        limit->0 as int
    } else {
        rest
    };
    lemma_parted(content, offset as int, n);
    let all = text::split(content, '\n');
    let body = text::join(all.subrange(offset as int, offset + n), "\n"@);
    assert(reader::taken(rest, limit) == n);
    assert(reader::line_range(content, Some(offset), limit) == (
        body,
        offset as int + 1,
        offset as int + n,
    ));
    assert(is_parted(content, body, offset as int, offset + n == all.len()));
}

/// Behind the last line, the line that was asked for is named as the first and the last.
pub proof fn law_label_behind_the_end(request: parser::ReadView, content: Seq<char>)
    requires
        request.symbols is None,
        text_laws::count(content, '\n') < asked_offset(request) < usize::MAX,
    ensures
        reading::shown_text(request, content).label == "[lines "@ + numbers::decimal(
            (asked_offset(request) + 1) as nat,
        ) + "-"@ + numbers::decimal((asked_offset(request) + 1) as nat) + " of "@
            + numbers::decimal(text_laws::line_count(content) as nat) + "]"@,
{
    text_laws::law_piece_count(content, '\n');
    text_laws::law_line_count(content);
}

/// Where an empty list of symbols is asked for, lines are shown as if none were, but as many as the
/// limit says, and nothing is said to be cut off.
pub proof fn law_no_symbols(request: parser::ReadView, content: Seq<char>)
    requires
        request.symbols is Some,
        request.symbols->0.len() == 0,
    ensures
        reading::shown_text(request, content).body == reader::line_range(
            content,
            request.offset,
            request.limit,
        ).0,
        reading::shown_text(request, content).notice.len() == 0,
{
}

/// How many kinds of definitions are looked for in each language.
pub proof fn law_opener_counts(e: Seq<char>)
    ensures
        reader::openers("rust"@, e).len() == 7,
        reader::openers("rust"@, e).contains(
            "(?m)(pub\\s+)?impl\\s+\\S+\\s+for\\s+"@ + e + "\\s*\\{"@,
        ),
        reader::openers("python"@, e).len() == 2,
        reader::openers("go"@, e).len() == 1,
        reader::openers("typescript"@, e).len() == 5,
        reader::openers("typescript"@, e).contains(
            "(?m)(const|let|var)\\s+"@ + e + "\\s*=\\s*(async\\s+)?\\("@,
        ),
        reader::openers("typescript"@, e).contains(
            "(?m)(const|let|var)\\s+"@ + e + "\\s*=\\s*(async\\s+)?function"@,
        ),
        reader::openers("unknown"@, e).len() == 1,
{
    reveal_strlit("rust");
    reveal_strlit("python");
    reveal_strlit("typescript");
    reveal_strlit("javascript");
    reveal_strlit("go");
    reveal_strlit("unknown");
    assert("typescript"@[0] == 't' && "javascript"@[0] == 'j' && "python"@[0] == 'p' && "rust"@[0]
        == 'r' && "go"@[0] == 'g' && "unknown"@[0] == 'u');
    assert(reader::openers("rust"@, e)[3] == "(?m)(pub\\s+)?impl\\s+\\S+\\s+for\\s+"@ + e
        + "\\s*\\{"@);
    let t = reader::openers("typescript"@, e);
    assert(t[2] == "(?m)(const|let|var)\\s+"@ + e + "\\s*=\\s*(async\\s+)?\\("@);
    assert(t[3] == "(?m)(const|let|var)\\s+"@ + e + "\\s*=\\s*(async\\s+)?function"@);
}

/// Where no line is asked for, the line that was asked for first is named, and nothing is shown.
pub proof fn law_range_of_no_lines(content: Seq<char>, offset: usize)
    requires
        offset <= text_laws::count(content, '\n'),
    ensures
        reader::line_range(content, Some(offset), Some(0)) == (
            Seq::<char>::empty(),
            offset + 1,
            offset + 1,
        ),
{
    text_laws::law_piece_count(content, '\n');
    let all = text::split(content, '\n');
    assert(all.subrange(offset as int, offset as int).len() == 0);
}

} // verus!
