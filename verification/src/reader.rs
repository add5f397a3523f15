//! Reading parts of a file.

use vstd::prelude::*;
use vstd::string::*;

use crate::error::{cat2, cat3};
use crate::excerpt;
use crate::lists;
use crate::matching::slice_texts;
use crate::paths;
use crate::paths::{below_dir, plain_path, slashed};
use crate::patterns;
use crate::sizes;
use crate::sizes::{byte_size, bytes_of_char};
use crate::text;
use crate::text::{chars_of, comes_before, join_rows, join_texts, lines_of, same_text, split_at_each, string_of, trimmed};

verus! {

broadcast use crate::lists::group_lists;

// ---------------------------------------------------------------------------
// Lines
// ---------------------------------------------------------------------------

/// One more, or the greatest number.
pub open spec fn next_number(n: int) -> int {
    if n < usize::MAX {
        n + 1
    } else {
        usize::MAX as int
    }
}

/// How many of `rest` lines are taken.
pub open spec fn taken(rest: int, limit: Option<usize>) -> int {
    match limit {
        Some(n) => if n < rest {
            n as int
        } else {
            rest
        },
        None => rest,
    }
}

/// The lines of a text from `offset` on, at most `limit`, and the numbers of the first and the
/// last of them, from one. The pieces between line feeds are the lines. From an offset behind
/// the last line nothing is taken.
pub open spec fn line_range(
    content: Seq<char>,
    offset: Option<usize>,
    limit: Option<usize>,
) -> (Seq<char>, int, int) {
    let all = text::split(content, '\n');
    let start = match offset {
        Some(n) => n as int,
        None => 0,
    };
    if start >= all.len() {
        (Seq::empty(), next_number(start), next_number(start))
    } else {
        let n = taken(all.len() - start, limit);
        (
            text::join(all.subrange(start, start + n), "\n"@),
            start + 1,
            if n > 0 {
                start + n
            } else {
                start + 1
            },
        )
    }
}

/// The lines of a text from `offset` on, at most `limit`, and the numbers of the first and the
/// last of them, from one.
pub fn apply_line_range(content: &str, offset: Option<usize>, limit: Option<usize>) -> (r: (
    String,
    usize,
    usize,
))
    ensures
        (r.0@, r.1 as int, r.2 as int) == line_range(content@, offset, limit),
{
    let rows = split_at_each(&chars_of(content), '\n');
    let total: usize = rows.len();
    let ghost all = lists::rows(rows@);
    let start: usize = match offset {
        Some(n) => n,
        None => 0,
    };
    if start >= total {
        let line: usize = if start < usize::MAX {
            start + 1
        } else {
            usize::MAX
        };
        let none = String::new();
        assert(none@ =~= Seq::empty());
        return (none, line, line);
    }
    let n: usize = match limit {
        Some(n) => if n < total - start {
            n
        } else {
            total - start
        },
        None => total - start,
    };
    let mut part: Vec<Vec<char>> = Vec::new();
    let mut i: usize = start;
    while i < start + n
        invariant
            start <= i <= start + n <= total == rows@.len(),
            all == lists::rows(rows@),
            lists::rows(part@) == all.subrange(start as int, i as int),
        decreases start + n - i,
    {
        let row = text::slice_of(&rows[i], 0, rows[i].len());
        assert(row@ =~= rows@[i as int]@);
        part.push(row);
        i += 1;
        assert(lists::rows(part@) =~= all.subrange(start as int, i as int));
    }
    let last: usize = if n > 0 {
        start + n
    } else {
        start + 1
    };
    (string_of(&join_rows(&part, "\n")), start + 1, last)
}

/// Without an offset and a limit, all of the text is taken.
pub proof fn law_whole_range(content: Seq<char>)
    ensures
        line_range(content, None, None) == (content, 1int, text::split(content, '\n').len() as int),
{
    text::law_join_of_split(content, '\n');
    let all = text::split(content, '\n');
    assert(all.subrange(0, all.len() as int) =~= all);
    reveal_strlit("\n");
    assert("\n"@ =~= seq!['\n']);
}

// ---------------------------------------------------------------------------
// Openers of symbols
// ---------------------------------------------------------------------------

/// The patterns of the lines that open the definition of `e`, a name with its special
/// characters escaped, in a language.
pub open spec fn openers(language: Seq<char>, e: Seq<char>) -> Seq<Seq<char>> {
    if language == "rust"@ {
        seq![
            "(?m)(pub\\s+)?(async\\s+)?fn\\s+"@ + e + "\\s*[(<]"@,
            "(?m)(pub\\s+)?struct\\s+"@ + e + "\\s*[\\{<]"@,
            "(?m)(pub\\s+)?impl(\\s+\\S+\\s+for)?\\s+"@ + e + "\\s*[\\{<]"@,
            "(?m)(pub\\s+)?impl\\s+\\S+\\s+for\\s+"@ + e + "\\s*\\{"@,
            "(?m)(pub\\s+)?enum\\s+"@ + e + "\\s*[\\{<]"@,
            "(?m)(pub\\s+)?type\\s+"@ + e + "\\s*="@,
            "(?m)(pub\\s+)?trait\\s+"@ + e + "\\s*\\{"@,
        ]
    } else if language == "python"@ {
        seq![
            "(?m)(async\\s+)?def\\s+"@ + e + "\\s*\\("@,
            "(?m)class\\s+"@ + e + "\\s*[:(]"@,
        ]
    } else if language == "typescript"@ || language == "javascript"@ {
        seq![
            "(?m)(export\\s+)?(async\\s+)?function\\s+"@ + e + "\\s*[\\(<]"@,
            "(?m)(export\\s+)?class\\s+"@ + e + "\\s*[\\{<(]"@,
            "(?m)(const|let|var)\\s+"@ + e + "\\s*=\\s*(async\\s+)?\\("@,
            "(?m)(const|let|var)\\s+"@ + e + "\\s*=\\s*(async\\s+)?function"@,
            "(?m)(export\\s+)?(const|let|var)\\s+"@ + e + "\\s*="@,
        ]
    } else if language == "go"@ {
        seq!["(?m)func\\s+(\\([^)]+\\)\\s+)?"@ + e + "\\s*\\("@]
    } else {
        seq!["(?m)(function|fn|def|class|struct|impl|type|func)\\s+"@ + e]
    }
}

/// Whether a match starts in the first `room` bytes.
pub open spec fn starts_within(start: Option<usize>, room: int) -> bool {
    start is Some && start->0 < room
}

/// Whether the first match of one of the patterns that compile starts in the first `room` bytes
/// of a text.
pub open spec fn any_found(list: Seq<Seq<char>>, haystack: Seq<char>, room: int) -> bool {
    exists|i: int|
        0 <= i < list.len() && patterns::compiles(#[trigger] list[i]) && starts_within(
            patterns::match_start(list[i], haystack),
            room,
        )
}

/// The line `at` and the one after it.
pub open spec fn two_lines(lines: Seq<Seq<char>>, at: int) -> Seq<char> {
    text::join(lines.subrange(at, excerpt::cut_end(lines.len() as int, at, 2)), "\n"@)
}

/// The first line from `from` on that opens a definition: one starts in it, and may go on in the
/// next line.
pub open spec fn opening_line(
    lines: Seq<Seq<char>>,
    list: Seq<Seq<char>>,
    from: int,
) -> Option<int>
    decreases lines.len() - from,
{
    if from < 0 || from >= lines.len() {
        None
    } else if any_found(list, two_lines(lines, from), sizes::byte_len(lines[from]) as int) {
        Some(from)
    } else {
        opening_line(lines, list, from + 1)
    }
}

// ---------------------------------------------------------------------------
// Bodies of symbols
// ---------------------------------------------------------------------------

/// The most lines of a symbol that are shown.
pub const SYMBOL_LINES: usize = 1000;

/// How many braces are open, and whether one ever was.
pub struct Braces {
    pub depth: int,
    pub opened: bool,
}

/// The braces after one character more. A closing brace counts once one was opened.
pub open spec fn brace_step(b: Braces, c: char) -> Braces {
    if c == '{' {
        Braces { depth: b.depth + 1, opened: true }
    } else if c == '}' && b.opened {
        Braces { depth: b.depth - 1, opened: true }
    } else {
        b
    }
}

/// The braces after the first `k` characters of a line.
pub open spec fn brace_line(b: Braces, line: Seq<char>, k: int) -> Braces
    decreases k,
{
    if k <= 0 {
        b
    } else {
        brace_step(brace_line(b, line, k - 1), line[k - 1])
    }
}

/// The braces after `k` lines from `start` on.
pub open spec fn brace_lines(lines: Seq<Seq<char>>, start: int, k: int) -> Braces
    decreases k,
{
    if k <= 0 {
        Braces { depth: 0, opened: false }
    } else {
        brace_line(
            brace_lines(lines, start, k - 1),
            lines[start + k - 1],
            lines[start + k - 1].len() as int,
        )
    }
}

/// How many lines a block in braces takes, of which `k` are taken already, and whether it was
/// cut off. It ends with the line in which the braces are closed.
pub open spec fn brace_extent(lines: Seq<Seq<char>>, start: int, k: int) -> (int, bool)
    decreases lines.len() - start - k,
{
    if start + k >= lines.len() {
        (k, false)
    } else {
        let b = brace_lines(lines, start, k + 1);
        if b.opened && b.depth == 0 {
            (k + 1, false)
        } else if k + 1 > SYMBOL_LINES {
            (k + 1, true)
        } else {
            brace_extent(lines, start, k + 1)
        }
    }
}

/// The white space at the start of a line, in bytes.
pub open spec fn indent(line: Seq<char>) -> int {
    sizes::byte_len(line) - sizes::byte_len(text::trim_start(line))
}

/// How many lines an indented block takes, of which `k` are taken already, and whether it was
/// cut off. It ends before a line that is not indented more than its first line; blank lines
/// belong to it.
pub open spec fn indent_extent(lines: Seq<Seq<char>>, start: int, k: int) -> (int, bool)
    decreases lines.len() - start - k,
{
    if start + k >= lines.len() {
        (k, false)
    } else {
        let line = lines[start + k];
        if text::trim(line).len() == 0 {
            indent_extent(lines, start, k + 1)
        } else if indent(line) <= indent(lines[start]) {
            (k, false)
        } else if k + 1 > SYMBOL_LINES {
            (k + 1, true)
        } else {
            indent_extent(lines, start, k + 1)
        }
    }
}

/// So many lines from `start` on, with a note where they were cut off.
pub open spec fn shown_block(
    lines: Seq<Seq<char>>,
    start: int,
    extent: (int, bool),
    note: Seq<char>,
) -> Seq<char> {
    let part = lines.subrange(start, start + extent.0);
    if extent.1 {
        text::join(part.push(note), "\n"@)
    } else {
        text::join(part, "\n"@)
    }
}

/// The block in braces from `start` on.
pub open spec fn brace_block(lines: Seq<Seq<char>>, start: int) -> Seq<char> {
    shown_block(
        lines,
        start,
        brace_extent(lines, start, 0),
        "// ... [symbol body truncated at 1000 lines]"@,
    )
}

/// The indented block from `start` on.
pub open spec fn indent_block(lines: Seq<Seq<char>>, start: int) -> Seq<char> {
    shown_block(
        lines,
        start,
        indent_extent(lines, start, 1),
        "    # ... [symbol body truncated at 1000 lines]"@,
    )
}

/// The definition of a symbol, or that there is none.
pub open spec fn symbol_text(
    lines: Seq<Seq<char>>,
    language: Seq<char>,
    name: Seq<char>,
) -> Seq<char> {
    symbol_at(
        lines,
        language,
        name,
        opening_line(lines, openers(language, patterns::escaped(name)), 0),
    )
}

/// The definitions of symbols, each or that there is none, with an empty line between them.
pub open spec fn symbols_text(
    content: Seq<char>,
    language: Seq<char>,
    symbols: Seq<Seq<char>>,
) -> Seq<char> {
    text::join(
        symbols.map_values(|name: Seq<char>| symbol_text(text::lines(content), language, name)),
        "\n\n"@,
    )
}

/// The patterns of the lines that open the definition of an escaped name in a language.
fn opener_texts(language: &str, e: &str) -> (r: Vec<String>)
    ensures
        lists::texts(r@) == openers(language@, e@),
{
    let mut out: Vec<String> = Vec::new();
    if same_text(language, "rust") {
        out.push(cat3("(?m)(pub\\s+)?(async\\s+)?fn\\s+", e, "\\s*[(<]"));
        out.push(cat3("(?m)(pub\\s+)?struct\\s+", e, "\\s*[\\{<]"));
        out.push(cat3("(?m)(pub\\s+)?impl(\\s+\\S+\\s+for)?\\s+", e, "\\s*[\\{<]"));
        out.push(cat3("(?m)(pub\\s+)?impl\\s+\\S+\\s+for\\s+", e, "\\s*\\{"));
        out.push(cat3("(?m)(pub\\s+)?enum\\s+", e, "\\s*[\\{<]"));
        out.push(cat3("(?m)(pub\\s+)?type\\s+", e, "\\s*="));
        out.push(cat3("(?m)(pub\\s+)?trait\\s+", e, "\\s*\\{"));
    } else if same_text(language, "python") {
        out.push(cat3("(?m)(async\\s+)?def\\s+", e, "\\s*\\("));
        out.push(cat3("(?m)class\\s+", e, "\\s*[:(]"));
    } else if same_text(language, "typescript") || same_text(language, "javascript") {
        out.push(cat3("(?m)(export\\s+)?(async\\s+)?function\\s+", e, "\\s*[\\(<]"));
        out.push(cat3("(?m)(export\\s+)?class\\s+", e, "\\s*[\\{<(]"));
        out.push(cat3("(?m)(const|let|var)\\s+", e, "\\s*=\\s*(async\\s+)?\\("));
        out.push(cat3("(?m)(const|let|var)\\s+", e, "\\s*=\\s*(async\\s+)?function"));
        out.push(cat3("(?m)(export\\s+)?(const|let|var)\\s+", e, "\\s*="));
    } else if same_text(language, "go") {
        out.push(cat3("(?m)func\\s+(\\([^)]+\\)\\s+)?", e, "\\s*\\("));
    } else {
        out.push(cat2("(?m)(function|fn|def|class|struct|impl|type|func)\\s+", e));
    }
    assert(lists::texts(out@) =~= openers(language@, e@));
    out
}

/// The patterns of a list that compile.
spec fn compiled(res: Seq<regex::Regex>) -> Seq<Seq<char>> {
    res.map_values(|re: regex::Regex| patterns::pattern_of(re))
}

/// The expressions for the lines that open the definition of a symbol in a language.
fn build_opener_patterns(language: &str, name: &str) -> (r: Vec<regex::Regex>)
    ensures
        forall|haystack: Seq<char>, room: int| #[trigger]
            any_found(openers(language@, patterns::escaped(name@)), haystack, room) == any_found(
                compiled(r@),
                haystack,
                room,
            ),
        forall|i: int| 0 <= i < r@.len() ==> patterns::compiles(#[trigger] compiled(r@)[i]),
{
    let e = regex::escape(name);
    let list = opener_texts(language, e.as_str());
    let ghost wanted = lists::texts(list@);
    let mut out: Vec<regex::Regex> = Vec::new();
    let mut i: usize = 0;
    while i < list.len()
        invariant
            0 <= i <= list@.len(),
            wanted == lists::texts(list@),
            forall|k: int| 0 <= k < out@.len() ==> patterns::compiles(#[trigger] compiled(out@)[k]),
            forall|k: int|
                0 <= k < out@.len() ==> wanted.take(i as int).contains(#[trigger] compiled(out@)[k]),
            forall|k: int|
                0 <= k < i && patterns::compiles(#[trigger] wanted[k]) ==> compiled(out@).contains(
                    wanted[k],
                ),
        decreases list@.len() - i,
    {
        let ghost before = out@;
        let ghost done = wanted.take(i as int);
        let ghost more = wanted.take(i + 1);
        assert(wanted[i as int] == list@[i as int]@);
        proof {
            assert(forall|k: int| 0 <= k < i ==> more[k] == done[k]);
            assert(more[i as int] == wanted[i as int]);
            assert forall|x: Seq<char>| done.contains(x) implies more.contains(x) by {
                let k = choose|k: int| 0 <= k < done.len() && done[k] == x;
                assert(more[k] == x);
            }
            assert(more.contains(wanted[i as int]));
        }
        match regex::Regex::new(list[i].as_str()) {
            Ok(re) => {
                out.push(re);
                proof {
                    assert(compiled(out@) =~= compiled(before).push(wanted[i as int]));
                    let all = compiled(out@);
                    assert forall|k: int| 0 <= k < out@.len() implies more.contains(
                        #[trigger] all[k],
                    ) by {
                        if k < before.len() {
                            assert(all[k] == compiled(before)[k]);
                        }
                    }
                    assert forall|k: int| 0 <= k < out@.len() implies patterns::compiles(
                        #[trigger] all[k],
                    ) by {
                        if k < before.len() {
                            assert(all[k] == compiled(before)[k]);
                        }
                    }
                    assert forall|k: int|
                        0 <= k < i + 1 && patterns::compiles(
                            #[trigger] wanted[k],
                        ) implies all.contains(wanted[k]) by {
                        if k < i {
                            let j = choose|j: int|
                                0 <= j < compiled(before).len() && compiled(before)[j] == wanted[k];
                            assert(all[j] == wanted[k]);
                        } else {
                            assert(all[before.len() as int] == wanted[k]);
                        }
                    }
                }
            },
            Err(_) => {},
        }
        i += 1;
    }
    proof {
        assert(wanted.take(i as int) =~= wanted);
        assert forall|haystack: Seq<char>, room: int| #[trigger]
            any_found(wanted, haystack, room) == any_found(compiled(out@), haystack, room) by {
            let all = compiled(out@);
            if any_found(wanted, haystack, room) {
                let k = choose|k: int|
                    0 <= k < wanted.len() && patterns::compiles(wanted[k]) && starts_within(
                        patterns::match_start(wanted[k], haystack),
                        room,
                    );
                assert(all.contains(wanted[k]));
                let j = choose|j: int| 0 <= j < all.len() && all[j] == wanted[k];
                assert(patterns::compiles(all[j]) && starts_within(
                    patterns::match_start(all[j], haystack),
                    room,
                ));
            }
            if any_found(all, haystack, room) {
                let j = choose|j: int|
                    0 <= j < all.len() && patterns::compiles(all[j]) && starts_within(
                        patterns::match_start(all[j], haystack),
                        room,
                    );
                assert(wanted.contains(all[j]));
                let k = choose|k: int| 0 <= k < wanted.len() && wanted[k] == all[j];
                assert(patterns::compiles(wanted[k]) && starts_within(
                    patterns::match_start(wanted[k], haystack),
                    room,
                ));
            }
        }
    }
    out
}

/// Whether a match that starts so many bytes into a text starts in its first line.
pub fn begins_in_line(start: Option<usize>, line: &str) -> (r: bool)
    ensures
        r == starts_within(start, sizes::byte_len(line@) as int),
{
    match start {
        Some(k) => k < byte_size(line),
        None => false,
    }
}

/// Whether the first match of one of the expressions in a text starts in its first line.
fn any_match(res: &Vec<regex::Regex>, haystack: &str, line: &str) -> (r: bool)
    requires
        forall|i: int| 0 <= i < res@.len() ==> patterns::compiles(#[trigger] compiled(res@)[i]),
    ensures
        r == any_found(compiled(res@), haystack@, sizes::byte_len(line@) as int),
{
    let ghost all = compiled(res@);
    let ghost room = sizes::byte_len(line@) as int;
    let mut i: usize = 0;
    while i < res.len()
        invariant
            0 <= i <= res@.len(),
            all == compiled(res@),
            room == sizes::byte_len(line@),
            forall|k: int|
                0 <= k < i ==> !starts_within(
                    patterns::match_start(#[trigger] all[k], haystack@),
                    room,
                ),
            forall|i: int| 0 <= i < res@.len() ==> patterns::compiles(#[trigger] all[i]),
        decreases res@.len() - i,
    {
        let start = patterns::find_start(&res[i], haystack);
        assert(start == patterns::match_start(all[i as int], haystack@));
        if begins_in_line(start, line) {
            assert(patterns::compiles(all[i as int]));
            return true;
        }
        i += 1;
    }
    false
}

/// The first line that opens the definition of a symbol.
pub fn find_opening(lines: &Vec<String>, language: &str, name: &str) -> (r: Option<usize>)
    ensures
        match r {
            Some(k) => opening_line(
                lists::texts(lines@),
                openers(language@, patterns::escaped(name@)),
                0,
            ) == Some(k as int) && k < lines@.len(),
            None => opening_line(
                lists::texts(lines@),
                openers(language@, patterns::escaped(name@)),
                0,
            ) is None,
        },
{
    let res = build_opener_patterns(language, name);
    let ghost list = openers(language@, patterns::escaped(name@));
    let ghost texts = lists::texts(lines@);
    let n: usize = lines.len();
    let mut start: usize = 0;
    while start < n
        invariant
            0 <= start <= n == lines@.len(),
            texts == lists::texts(lines@),
            list == openers(language@, patterns::escaped(name@)),
            opening_line(texts, list, 0) == opening_line(texts, list, start as int),
            forall|haystack: Seq<char>, room: int| #[trigger]
                any_found(list, haystack, room) == any_found(compiled(res@), haystack, room),
            forall|i: int| 0 <= i < res@.len() ==> patterns::compiles(#[trigger] compiled(res@)[i]),
        decreases n - start,
    {
        let end: usize = if 2 < n - start {
            start + 2
        } else {
            n
        };
        let window = join_texts(&slice_texts(lines, start, end), "\n");
        assert(window@ == two_lines(texts, start as int));
        let line = lines[start].as_str();
        assert(texts[start as int] == line@);
        let ghost room = sizes::byte_len(line@) as int;
        if any_match(&res, window.as_str(), line) {
            assert(any_found(list, window@, room));
            return Some(start);
        }
        assert(!any_found(list, window@, room));
        start += 1;
    }
    None
}

/// The lines from `start` to `end`, with a note where they were cut off.
fn block_text(lines: &Vec<String>, start: usize, end: usize, cut: bool, note: &str) -> (r: String)
    requires
        start <= end <= lines@.len(),
    ensures
        r@ == shown_block(lists::texts(lines@), start as int, (end - start, cut), note@),
{
    let mut part = slice_texts(lines, start, end);
    if cut {
        part.push(note.to_owned());
    }
    join_texts(&part, "\n")
}

/// The block in braces that starts at a line.
pub fn collect_brace_block(lines: &Vec<String>, start_line: usize) -> (r: String)
    requires
        start_line < lines@.len(),
    ensures
        r@ == brace_block(lists::texts(lines@), start_line as int),
{
    let ghost texts = lists::texts(lines@);
    let ghost extent = brace_extent(texts, start_line as int, 0);
    let n: usize = lines.len();
    let mut depth: i128 = 0;
    let mut opened = false;
    let mut k: usize = 0;
    while k < n - start_line
        invariant
            start_line + k <= n == lines@.len(),
            k <= SYMBOL_LINES,
            texts == lists::texts(lines@),
            extent == brace_extent(texts, start_line as int, 0),
            extent == brace_extent(texts, start_line as int, k as int),
            (Braces { depth: depth as int, opened }) == brace_lines(
                texts,
                start_line as int,
                k as int,
            ),
            -(k * 0x1_0000_0000_0000_0000) <= depth <= k * 0x1_0000_0000_0000_0000,
        decreases n - start_line - k,
    {
        let v = chars_of(lines[start_line + k].as_str());
        let m: usize = v.len();
        let ghost before = brace_lines(texts, start_line as int, k as int);
        assert(texts[start_line + k] == v@);
        let mut j: usize = 0;
        while j < m
            invariant
                0 <= j <= m == v@.len(),
                k <= SYMBOL_LINES,
                (Braces { depth: depth as int, opened }) == brace_line(before, v@, j as int),
                -(k * 0x1_0000_0000_0000_0000) - j <= depth <= k * 0x1_0000_0000_0000_0000 + j,
            decreases m - j,
        {
            let c = v[j];
            if c == '{' {
                depth += 1;
                opened = true;
            } else if c == '}' && opened {
                depth -= 1;
            }
            j += 1;
        }
        k += 1;
        if opened && depth == 0 {
            return block_text(
                lines,
                start_line,
                start_line + k,
                false,
                "// ... [symbol body truncated at 1000 lines]",
            );
        }
        if k > SYMBOL_LINES {
            return block_text(
                lines,
                start_line,
                start_line + k,
                true,
                "// ... [symbol body truncated at 1000 lines]",
            );
        }
    }
    block_text(lines, start_line, n, false, "// ... [symbol body truncated at 1000 lines]")
}

/// The white space at the start of a line, in bytes.
pub fn leading_spaces(s: &str) -> (r: usize)
    ensures
        r == indent(s@),
{
    let size: usize = byte_size(s);
    let v = chars_of(s);
    let mut n: usize = 0;
    let mut i: usize = 0;
    assert(v@.skip(0) =~= v@);
    while i < v.len() && text::space(v[i])
        invariant
            0 <= i <= v@.len(),
            v@ == s@,
            sizes::byte_len(s@) == size,
            n == sizes::byte_len(v@.take(i as int)),
            text::trim_start(v@) == text::trim_start(v@.skip(i as int)),
        decreases v@.len() - i,
    {
        proof {
            assert(v@.take(i + 1) =~= v@.take(i as int) + seq![v@[i as int]]);
            sizes::lemma_byte_len_add(v@.take(i as int), seq![v@[i as int]]);
            assert(seq![v@[i as int]].skip(1) =~= Seq::empty());
            assert(v@.take(i + 1) + v@.skip(i + 1) =~= v@);
            sizes::lemma_byte_len_add(v@.take(i + 1), v@.skip(i + 1));
            sizes::lemma_byte_len_add(v@.skip(i + 1), Seq::empty());
            assert(v@.skip(i as int).skip(1) =~= v@.skip(i + 1));
        }
        n += bytes_of_char(v[i]);
        i += 1;
    }
    proof {
        assert(v@.take(i as int) + v@.skip(i as int) =~= v@);
        sizes::lemma_byte_len_add(v@.take(i as int), v@.skip(i as int));
        assert(text::trim_start(v@.skip(i as int)) == v@.skip(i as int));
    }
    n
}

/// The indented block that starts at a line.
pub fn collect_python_block(lines: &Vec<String>, start_line: usize) -> (r: String)
    requires
        start_line < lines@.len(),
    ensures
        r@ == indent_block(lists::texts(lines@), start_line as int),
{
    let ghost texts = lists::texts(lines@);
    let ghost extent = indent_extent(texts, start_line as int, 1);
    let n: usize = lines.len();
    let opener: usize = leading_spaces(lines[start_line].as_str());
    assert(texts[start_line as int] == lines@[start_line as int]@);
    let mut k: usize = 1;
    while k < n - start_line
        invariant
            1 <= k <= n - start_line,
            start_line < n == lines@.len(),
            texts == lists::texts(lines@),
            opener == indent(texts[start_line as int]),
            extent == indent_extent(texts, start_line as int, 1),
            extent == indent_extent(texts, start_line as int, k as int),
        decreases n - start_line - k,
    {
        let line = lines[start_line + k].as_str();
        assert(texts[start_line + k] == line@);
        if trimmed(&chars_of(line)).len() > 0 {
            if leading_spaces(line) <= opener {
                return block_text(
                    lines,
                    start_line,
                    start_line + k,
                    false,
                    "    # ... [symbol body truncated at 1000 lines]",
                );
            }
            if k >= SYMBOL_LINES {
                return block_text(
                    lines,
                    start_line,
                    start_line + k + 1,
                    true,
                    "    # ... [symbol body truncated at 1000 lines]",
                );
            }
        }
        k += 1;
    }
    block_text(lines, start_line, n, false, "    # ... [symbol body truncated at 1000 lines]")
}

/// The definition of a symbol that is opened in a line, or that there is none.
pub open spec fn symbol_at(
    lines: Seq<Seq<char>>,
    language: Seq<char>,
    name: Seq<char>,
    opening: Option<int>,
) -> Seq<char> {
    match opening {
        Some(start) => "// symbol: "@ + name + "\n"@ + (if language == "python"@ {
            indent_block(lines, start)
        } else {
            brace_block(lines, start)
        }),
        None => "// symbol "@ + name + ": NOT FOUND"@,
    }
}

/// The definition of a symbol that is opened in a line, or that there is none.
pub fn show_symbol(
    lines: &Vec<String>,
    language: &str,
    name: &str,
    opening: Option<usize>,
) -> (r: String)
    requires
        opening is Some ==> opening->0 < lines@.len(),
    ensures
        r@ == symbol_at(
            lists::texts(lines@),
            language@,
            name@,
            match opening {
                Some(k) => Some(k as int),
                None => None,
            },
        ),
{
    match opening {
        Some(start) => {
            let body = if same_text(language, "python") {
                collect_python_block(lines, start)
            } else {
                collect_brace_block(lines, start)
            };
            let mut out = cat3("// symbol: ", name, "\n");
            out.append(body.as_str());
            out
        },
        None => cat3("// symbol ", name, ": NOT FOUND"),
    }
}

/// The definition of a symbol, or that there is none.
pub fn extract_one_symbol(lines: &Vec<String>, language: &str, name: &str) -> (r: String)
    ensures
        r@ == symbol_text(lists::texts(lines@), language@, name@),
{
    let opening: Option<usize> = find_opening(lines, language, name);
    show_symbol(lines, language, name, opening)
}

/// The definitions of symbols, each or that there is none.
pub fn extract_symbols(content: &str, language: &str, symbols: &Vec<String>) -> (r: String)
    ensures
        r@ == symbols_text(content@, language@, lists::texts(symbols@)),
{
    let lines = lines_of(content);
    let ghost all = lists::texts(symbols@).map_values(
        |name: Seq<char>| symbol_text(text::lines(content@), language@, name),
    );
    let mut blocks: Vec<String> = Vec::new();
    let mut i: usize = 0;
    while i < symbols.len()
        invariant
            0 <= i <= symbols@.len(),
            lists::texts(lines@) == text::lines(content@),
            all == lists::texts(symbols@).map_values(
                |name: Seq<char>| symbol_text(text::lines(content@), language@, name),
            ),
            lists::texts(blocks@) == all.take(i as int),
        decreases symbols@.len() - i,
    {
        blocks.push(extract_one_symbol(&lines, language, symbols[i].as_str()));
        i += 1;
        assert(lists::texts(blocks@) =~= all.take(i as int));
    }
    assert(lists::texts(blocks@) =~= all);
    join_texts(&blocks, "\n\n")
}

// ---------------------------------------------------------------------------
// Globs
// ---------------------------------------------------------------------------

/// A path that a glob pattern matches.
#[derive(Debug)]
pub struct Candidate {
    /// The path, in normal form and with its links resolved.
    pub path: String,
    /// Whether what was matched is neither a link nor a directory, and could be looked at.
    pub is_file: bool,
}

/// The contents of a `Candidate`.
#[verifier::ext_equal]
pub struct CandidateView {
    pub path: Seq<char>,
    pub is_file: bool,
}

impl View for Candidate {
    type V = CandidateView;

    open spec fn view(&self) -> CandidateView {
        CandidateView { path: self.path@, is_file: self.is_file }
    }
}

/// The contents of a list of candidates.
pub open spec fn candidate_views(v: Seq<Candidate>) -> Seq<CandidateView> {
    v.map_values(|c: Candidate| c@)
}

/// The first place in a list from `from` on that a text comes before, or its end.
pub open spec fn text_place(list: Seq<Seq<char>>, s: Seq<char>, from: int) -> int
    decreases list.len() - from,
{
    if from >= list.len() || text::text_before(s, list[from], 0) {
        from
    } else {
        text_place(list, s, from + 1)
    }
}

/// Those of the first `k` candidates that are files inside a directory, as seen from it, in
/// their order.
pub open spec fn selected(base: Seq<char>, list: Seq<CandidateView>, k: int) -> Seq<Seq<char>>
    decreases k,
{
    if k <= 0 {
        Seq::empty()
    } else {
        let before = selected(base, list, k - 1);
        match paths::below(paths::plain(base, base), paths::plain(base, list[k - 1].path)) {
            Some(rest) => if list[k - 1].is_file {
                before.insert(
                    text_place(before, paths::with_slashes(rest), 0),
                    paths::with_slashes(rest),
                )
            } else {
                before
            },
            None => before,
        }
    }
}

/// The files that a glob pattern matches inside a directory, as seen from it, sorted. Links
/// and directories are left out, and what lies outside the directory.
pub fn select_matches(base: &str, candidates: &Vec<Candidate>) -> (r: Vec<String>)
    ensures
        lists::texts(r@) == selected(
            base@,
            candidate_views(candidates@),
            candidates@.len() as int,
        ),
{
    let ghost views = candidate_views(candidates@);
    let dir = plain_path(base, base);
    let mut out: Vec<String> = Vec::new();
    let mut k: usize = 0;
    assert(lists::texts(out@) =~= Seq::empty());
    while k < candidates.len()
        invariant
            0 <= k <= candidates@.len(),
            views == candidate_views(candidates@),
            dir@ == paths::plain(base@, base@),
            lists::texts(out@) == selected(base@, views, k as int),
        decreases candidates@.len() - k,
    {
        let c = &candidates[k];
        assert(views[k as int] == c@);
        if c.is_file {
            let path = plain_path(base, c.path.as_str());
            if let Some(rest) = below_dir(dir.as_str(), path.as_str()) {
                let rel = slashed(rest.as_str());
                let ghost before = lists::texts(out@);
                let mut p: usize = 0;
                while p < out.len() && !comes_before(rel.as_str(), out[p].as_str())
                    invariant
                        0 <= p <= out@.len(),
                        before == lists::texts(out@),
                        text_place(before, rel@, 0) == text_place(before, rel@, p as int),
                    decreases out@.len() - p,
                {
                    assert(before[p as int] == out@[p as int]@);
                    p += 1;
                }
                proof {
                    if p < out@.len() {
                        assert(before[p as int] == out@[p as int]@);
                    }
                }
                out.insert(p, rel);
                assert(lists::texts(out@) =~= before.insert(p as int, rel@));
            }
        }
        k += 1;
    }
    out
}

} // verus!
