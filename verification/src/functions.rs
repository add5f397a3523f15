//! The functions that a source text defines.

use vstd::prelude::*;
use vstd::string::*;

use crate::lists;
use crate::patterns;
use crate::patterns::capture;
use crate::reader;
use crate::reader::leading_spaces;
use crate::text;
use crate::text::{chars_of, has_prefix, lines_of, same_text, slice_of, trimmed, trimmed_start};

verus! {

broadcast use crate::lists::group_lists;

// ---------------------------------------------------------------------------
// The end of a function
// ---------------------------------------------------------------------------

/// Whether a line goes on the block that a less indented line would end: it is blank, a
/// comment, or another branch.
pub open spec fn goes_on(line: Seq<char>, indent: int) -> bool {
    let t = text::trim(line);
    ||| t.len() == 0
    ||| text::starts_with(t, "#"@)
    ||| reader::indent(line) > indent
    ||| text::starts_with(t, "else"@)
    ||| text::starts_with(t, "elif"@)
    ||| text::starts_with(t, "except"@)
    ||| text::starts_with(t, "finally"@)
}

/// The first line from `from` on that ends an indented block, or the end of the lines.
pub open spec fn indented_end(lines: Seq<Seq<char>>, indent: int, from: int) -> int
    decreases lines.len() - from,
{
    if from < 0 || from >= lines.len() {
        lines.len() as int
    } else if goes_on(lines[from], indent) {
        indented_end(lines, indent, from + 1)
    } else {
        from
    }
}

/// Where a reader of braces is.
#[verifier::ext_equal]
pub struct Scan {
    /// How many braces are open.
    pub depth: int,
    /// The quote that ends the string that is being read.
    pub quote: Option<char>,
    /// Whether the next character means nothing.
    pub escaped: bool,
    /// Whether the rest of the line is a comment.
    pub comment: bool,
    /// Whether the block has ended.
    pub closed: bool,
}

/// Whether nothing is left of a line from its place `k` on but white space or a comment.
pub open spec fn nothing_behind(line: Seq<char>, k: int) -> bool {
    let rest = text::trim(line.skip(k));
    rest.len() == 0 || text::starts_with(rest, "//"@) || text::starts_with(rest, "/*"@)
}

/// The reader after one character more. `slashed` says whether the line starts with a slash,
/// `ends` whether a block may end with the character.
pub open spec fn scan_char(s: Scan, c: char, slashed: bool, ends: bool) -> Scan {
    if s.comment || s.closed {
        s
    } else if s.escaped {
        Scan { escaped: false, ..s }
    } else if c == '\\' {
        Scan { escaped: true, ..s }
    } else if s.quote is Some {
        if s.quote == Some(c) {
            Scan { quote: None, ..s }
        } else {
            s
        }
    } else if c == '"' || c == '\'' {
        Scan { quote: Some(c), ..s }
    } else if c == '/' && slashed {
        Scan { comment: true, ..s }
    } else if c == '{' {
        Scan { depth: s.depth + 1, ..s }
    } else if c == '}' {
        Scan { depth: s.depth - 1, closed: s.depth == 1 && ends, ..s }
    } else {
        s
    }
}

/// The reader after the first `k` characters of a line. In the first line the braces of parameters
/// may come before those of the body, so a block ends there only where nothing is behind it.
pub open spec fn scan_line(s: Scan, line: Seq<char>, later: bool, k: int) -> Scan
    decreases k,
{
    if k <= 0 {
        Scan { comment: false, ..s }
    } else {
        scan_char(
            scan_line(s, line, later, k - 1),
            line[k - 1],
            text::starts_with(text::trim(line), "/"@),
            later || nothing_behind(line, k),
        )
    }
}

/// The end of a block in braces that is read from `start` on, the lines from `from` on being
/// left: the line behind that in which the last brace is closed, or the end of the lines.
pub open spec fn braced_end(lines: Seq<Seq<char>>, start: int, s: Scan, from: int) -> int
    decreases lines.len() - from,
{
    if from < 0 || from >= lines.len() {
        lines.len() as int
    } else {
        let t = scan_line(s, lines[from], from > start, lines[from].len() as int);
        if t.closed {
            from + 1
        } else {
            braced_end(lines, start, t, from + 1)
        }
    }
}

/// A reader at the start.
pub open spec fn fresh() -> Scan {
    Scan { depth: 0, quote: None, escaped: false, comment: false, closed: false }
}

/// The line, from one, that a function that starts in a line ends with.
pub open spec fn function_end(lines: Seq<Seq<char>>, start: int) -> int {
    if start >= lines.len() {
        start + 1
    } else if text::starts_with(text::trim_start(lines[start]), "def "@) {
        indented_end(lines, reader::indent(lines[start]), start + 1)
    } else {
        braced_end(lines, start, fresh(), start)
    }
}

/// How many characters the first `k` lines have.
pub open spec fn total_len(lines: Seq<Seq<char>>, k: int) -> int
    decreases k,
{
    if k <= 0 {
        0
    } else {
        total_len(lines, k - 1) + lines[k - 1].len()
    }
}

/// The lines of a text have no more characters than the text.
pub proof fn lemma_lines_total(s: Seq<char>)
    ensures
        total_len(text::lines(s), text::lines(s).len() as int) <= s.len(),
    decreases s.len(),
{
    text::lemma_first_index_bound(s, '\n');
    let k = text::first_index(s, '\n');
    let all = text::lines(s);
    if s.len() == 0 {
    } else if k >= s.len() {
        reveal_with_fuel(total_len, 2);
        assert(all =~= seq![s]);
    } else {
        let rest = text::lines(s.skip(k + 1));
        lemma_lines_total(s.skip(k + 1));
        lemma_total_shift(text::without_return(s.take(k)), rest, rest.len() as int);
    }
}

/// A line more in front has its characters more.
proof fn lemma_total_shift(a: Seq<char>, rest: Seq<Seq<char>>, k: int)
    requires
        0 <= k <= rest.len(),
    ensures
        total_len(seq![a] + rest, k + 1) == a.len() + total_len(rest, k),
    decreases k,
{
    if k > 0 {
        lemma_total_shift(a, rest, k - 1);
        assert((seq![a] + rest)[k] == rest[k - 1]);
    } else {
        reveal_with_fuel(total_len, 2);
        assert((seq![a] + rest)[0] == a);
    }
}

/// Fewer lines have no more characters.
proof fn lemma_total_grows(lines: Seq<Seq<char>>, j: int, k: int)
    requires
        0 <= j <= k,
    ensures
        0 <= total_len(lines, j) <= total_len(lines, k),
    decreases k,
{
    if j < k {
        lemma_total_grows(lines, j, k - 1);
    } else if k > 0 {
        lemma_total_grows(lines, k - 1, k - 1);
    }
}

/// The first line behind an indented block.
fn find_indented_end(lines: &Vec<String>, indent: usize, from: usize) -> (r: usize)
    requires
        from <= lines@.len(),
    ensures
        r == indented_end(lists::texts(lines@), indent as int, from as int),
        from <= r <= lines@.len(),
{
    let ghost texts = lists::texts(lines@);
    let mut i: usize = from;
    while i < lines.len()
        invariant
            from <= i <= lines@.len(),
            texts == lists::texts(lines@),
            indented_end(texts, indent as int, from as int) == indented_end(
                texts,
                indent as int,
                i as int,
            ),
        decreases lines@.len() - i,
    {
        let line = lines[i].as_str();
        assert(texts[i as int] == line@);
        let t = trimmed(&chars_of(line));
        if !(t.len() == 0 || has_prefix(&t, "#") || leading_spaces(line) > indent || has_prefix(
            &t,
            "else",
        ) || has_prefix(&t, "elif") || has_prefix(&t, "except") || has_prefix(&t, "finally")) {
            return i;
        }
        i += 1;
    }
    i
}

/// Where a reader of braces is, in plain numbers.
#[derive(Clone, Copy)]
struct Reader {
    depth: i128,
    quote: Option<char>,
    escaped: bool,
    comment: bool,
    closed: bool,
}

/// The state of a reader.
spec fn scan_of(r: Reader) -> Scan {
    Scan {
        depth: r.depth as int,
        quote: r.quote,
        escaped: r.escaped,
        comment: r.comment,
        closed: r.closed,
    }
}

/// The reader after one character more.
fn read_char(r: Reader, c: char, slashed: bool, ends: bool) -> (s: Reader)
    requires
        -0x1_0000_0000_0000_0000 <= r.depth <= 0x1_0000_0000_0000_0000,
    ensures
        scan_of(s) == scan_char(scan_of(r), c, slashed, ends),
        r.depth - 1 <= s.depth <= r.depth + 1,
{
    let mut s = r;
    if s.comment || s.closed {
    } else if s.escaped {
        s.escaped = false;
    } else if c == '\\' {
        s.escaped = true;
    } else if let Some(q) = s.quote {
        if q == c {
            s.quote = None;
        }
    } else if c == '"' || c == '\'' {
        s.quote = Some(c);
    } else if c == '/' && slashed {
        s.comment = true;
    } else if c == '{' {
        s.depth = s.depth + 1;
    } else if c == '}' {
        s.closed = s.depth == 1 && ends;
        s.depth = s.depth - 1;
    }
    s
}

/// Whether nothing is left of a line but white space or a comment.
fn is_nothing_behind(v: &Vec<char>, k: usize) -> (r: bool)
    requires
        k <= v@.len(),
    ensures
        r == nothing_behind(v@, k as int),
{
    let rest = slice_of(v, k, v.len());
    assert(rest@ =~= v@.skip(k as int));
    let t = trimmed(&rest);
    t.len() == 0 || has_prefix(&t, "//") || has_prefix(&t, "/*")
}

/// The line, from one, that a function that starts in a line ends with.
pub fn find_function_end(lines: &Vec<String>, start_idx: usize) -> (r: usize)
    requires
        start_idx < usize::MAX,
        total_len(lists::texts(lines@), lines@.len() as int) <= usize::MAX,
    ensures
        r == function_end(lists::texts(lines@), start_idx as int),
{
    let ghost texts = lists::texts(lines@);
    let n: usize = lines.len();
    if start_idx >= n {
        return start_idx + 1;
    }
    let first = lines[start_idx].as_str();
    assert(texts[start_idx as int] == first@);
    if has_prefix(&trimmed_start(&chars_of(first)), "def ") {
        return find_indented_end(lines, leading_spaces(first), start_idx + 1);
    }
    let mut state = Reader {
        depth: 0,
        quote: None,
        escaped: false,
        comment: false,
        closed: false,
    };
    let mut i: usize = start_idx;
    proof {
        lemma_total_grows(texts, start_idx as int, n as int);
    }
    while i < n
        invariant
            start_idx <= i <= n == lines@.len(),
            texts == lists::texts(lines@),
            total_len(texts, n as int) <= usize::MAX,
            -total_len(texts, i as int) <= state.depth <= total_len(texts, i as int),
            function_end(texts, start_idx as int) == braced_end(
                texts,
                start_idx as int,
                scan_of(state),
                i as int,
            ),
        decreases n - i,
    {
        let v = chars_of(lines[i].as_str());
        let m: usize = v.len();
        assert(texts[i as int] == v@);
        proof {
            lemma_total_grows(texts, i + 1, n as int);
        }
        let slashed = has_prefix(&trimmed(&v), "/");
        let later = i > start_idx;
        let ghost before = scan_of(state);
        state.comment = false;
        let mut j: usize = 0;
        while j < m
            invariant
                0 <= j <= m == v@.len(),
                0 <= total_len(texts, i as int) + m <= usize::MAX,
                slashed == text::starts_with(text::trim(v@), "/"@),
                scan_of(state) == scan_line(before, v@, later, j as int),
                -total_len(texts, i as int) - j <= state.depth <= total_len(texts, i as int) + j,
            decreases m - j,
        {
            let ends = later || (v[j] == '}' && is_nothing_behind(&v, j + 1));
            state = read_char(state, v[j], slashed, ends);
            j += 1;
        }
        if state.closed {
            return i + 1;
        }
        i += 1;
    }
    n
}

// ---------------------------------------------------------------------------
// The list of functions
// ---------------------------------------------------------------------------

/// A function: its name, and its first and last lines, from one.
#[derive(Debug)]
pub struct FunctionRange {
    pub name: String,
    pub start: usize,
    pub end: usize,
}

/// The contents of a `FunctionRange`.
#[verifier::ext_equal]
pub struct RangeView {
    pub name: Seq<char>,
    pub start: usize,
    pub end: usize,
}

impl View for FunctionRange {
    type V = RangeView;

    open spec fn view(&self) -> RangeView {
        RangeView { name: self.name@, start: self.start, end: self.end }
    }
}

/// The contents of a list of functions.
pub open spec fn range_views(v: Seq<FunctionRange>) -> Seq<RangeView> {
    v.map_values(|r: FunctionRange| r@)
}

/// Whether a word is no name of a function, though it looks like one.
pub open spec fn is_keyword(name: Seq<char>) -> bool {
    name == "if"@ || name == "while"@ || name == "for"@ || name == "match"@
}

/// Whether a list has a function of a name that starts in a line.
pub open spec fn listed(list: Seq<RangeView>, name: Seq<char>, start: int) -> bool {
    exists|i: int| 0 <= i < list.len() && (#[trigger] list[i]).name == name && list[i].start == start
}

/// The list after the names that were found in the first `k` lines.
pub open spec fn with_names(
    lines: Seq<Seq<char>>,
    names: Seq<Option<Seq<char>>>,
    list: Seq<RangeView>,
    k: int,
) -> Seq<RangeView>
    decreases k,
{
    if k <= 0 {
        list
    } else {
        let before = with_names(lines, names, list, k - 1);
        match names[k - 1] {
            Some(name) => if is_keyword(name) || listed(before, name, k) {
                before
            } else {
                before.push(
                    RangeView { name, start: k as usize, end: function_end(lines, k - 1) as usize },
                )
            },
            None => before,
        }
    }
}

/// The list after the first `k` rows of names, each row with a name or none for each line.
pub open spec fn all_names(
    lines: Seq<Seq<char>>,
    hits: Seq<Seq<Option<Seq<char>>>>,
    k: int,
) -> Seq<RangeView>
    decreases k,
{
    if k <= 0 {
        Seq::empty()
    } else {
        with_names(lines, hits[k - 1], all_names(lines, hits, k - 1), lines.len() as int)
    }
}

/// The first place in a list from `from` on that starts behind a line, or its end.
pub open spec fn place_by_start(list: Seq<RangeView>, start: usize, from: int) -> int
    decreases list.len() - from,
{
    if from >= list.len() || list[from].start > start {
        from
    } else {
        place_by_start(list, start, from + 1)
    }
}

/// The first `k` functions of a list in the order of their first lines; those with the same
/// first line stay in their order.
pub open spec fn by_start(list: Seq<RangeView>, k: int) -> Seq<RangeView>
    decreases k,
{
    if k <= 0 {
        Seq::empty()
    } else {
        let before = by_start(list, k - 1);
        before.insert(place_by_start(before, list[k - 1].start, 0), list[k - 1])
    }
}

/// How many functions are shown.
pub const SHOWN_FUNCTIONS: usize = 5;

/// The first functions of a source text, by the names that were found in its lines.
pub open spec fn first_functions(
    lines: Seq<Seq<char>>,
    hits: Seq<Seq<Option<Seq<char>>>>,
) -> Seq<RangeView> {
    let list = all_names(lines, hits, hits.len() as int);
    let sorted = by_start(list, list.len() as int);
    if sorted.len() > SHOWN_FUNCTIONS {
        sorted.take(SHOWN_FUNCTIONS as int)
    } else {
        sorted
    }
}

/// The names of a row.
pub open spec fn row_names(row: Seq<Option<String>>) -> Seq<Option<Seq<char>>> {
    row.map_values(|n: Option<String>| lists::opt_text(n))
}

/// The rows of names.
pub open spec fn all_row_names(rows: Seq<Vec<Option<String>>>) -> Seq<Seq<Option<Seq<char>>>> {
    rows.map_values(|r: Vec<Option<String>>| row_names(r@))
}

/// Whether a list has a function of a name that starts in a line.
fn is_listed(list: &Vec<FunctionRange>, name: &str, start: usize) -> (r: bool)
    ensures
        r == listed(range_views(list@), name@, start as int),
{
    let ghost views = range_views(list@);
    let mut i: usize = 0;
    while i < list.len()
        invariant
            0 <= i <= list@.len(),
            views == range_views(list@),
            forall|j: int|
                0 <= j < i ==> !((#[trigger] views[j]).name == name@ && views[j].start == start),
        decreases list@.len() - i,
    {
        assert(views[i as int] == list@[i as int]@);
        if list[i].start == start && same_text(list[i].name.as_str(), name) {
            return true;
        }
        i += 1;
    }
    false
}

/// A function ends with a line of the text, no earlier than the line that it starts with.
pub proof fn law_function_ends_in_text(lines: Seq<Seq<char>>, start: int)
    requires
        0 <= start < lines.len(),
    ensures
        start + 1 <= function_end(lines, start) <= lines.len(),
{
    lemma_indented_end(lines, reader::indent(lines[start]), start + 1);
    lemma_braced_end(lines, start, fresh(), start);
}

/// An indented block ends within the text.
proof fn lemma_indented_end(lines: Seq<Seq<char>>, indent: int, from: int)
    requires
        0 <= from <= lines.len(),
    ensures
        from <= indented_end(lines, indent, from) <= lines.len(),
    decreases lines.len() - from,
{
    if from < lines.len() && goes_on(lines[from], indent) {
        lemma_indented_end(lines, indent, from + 1);
    }
}

/// A block in braces ends within the text.
proof fn lemma_braced_end(lines: Seq<Seq<char>>, start: int, s: Scan, from: int)
    requires
        0 <= from <= lines.len(),
    ensures
        braced_end(lines, start, s, from) <= lines.len(),
        from < lines.len() ==> from + 1 <= braced_end(lines, start, s, from),
    decreases lines.len() - from,
{
    if from < lines.len() {
        let t = scan_line(s, lines[from], from > start, lines[from].len() as int);
        if !t.closed {
            lemma_braced_end(lines, start, t, from + 1);
        }
    }
}

/// The functions of a source text, sorted by their first lines, by the names that were found
/// in its lines: a row for each pattern, with a name or none for each line.
pub fn collect_functions(lines: &Vec<String>, hits: &Vec<Vec<Option<String>>>) -> (r: Vec<
    FunctionRange,
>)
    requires
        total_len(lists::texts(lines@), lines@.len() as int) <= usize::MAX,
        forall|i: int| 0 <= i < hits@.len() ==> (#[trigger] hits@[i])@.len() == lines@.len(),
    ensures
        range_views(r@) == first_functions(lists::texts(lines@), all_row_names(hits@)),
{
    let ghost texts = lists::texts(lines@);
    let ghost rows = all_row_names(hits@);
    let n: usize = lines.len();
    let mut list: Vec<FunctionRange> = Vec::new();
    let mut j: usize = 0;
    assert(range_views(list@) =~= Seq::empty());
    while j < hits.len()
        invariant
            0 <= j <= hits@.len(),
            n == lines@.len(),
            texts == lists::texts(lines@),
            rows == all_row_names(hits@),
            total_len(texts, n as int) <= usize::MAX,
            forall|i: int| 0 <= i < hits@.len() ==> (#[trigger] hits@[i])@.len() == lines@.len(),
            range_views(list@) == all_names(texts, rows, j as int),
        decreases hits@.len() - j,
    {
        let row = &hits[j];
        assert(rows[j as int] == row_names(row@));
        let ghost before = range_views(list@);
        let mut i: usize = 0;
        while i < n
            invariant
                0 <= i <= n == lines@.len() == row@.len(),
                texts == lists::texts(lines@),
                total_len(texts, n as int) <= usize::MAX,
                range_views(list@) == with_names(texts, row_names(row@), before, i as int),
            decreases n - i,
        {
            if let Some(name) = &row[i] {
                if !(same_text(name.as_str(), "if") || same_text(name.as_str(), "while")
                    || same_text(name.as_str(), "for") || same_text(name.as_str(), "match"))
                    && !is_listed(&list, name.as_str(), i + 1) {
                    let ghost old_list = list@;
                    let f = FunctionRange {
                        name: name.clone(),
                        start: i + 1,
                        end: find_function_end(lines, i),
                    };
                    list.push(f);
                    assert(range_views(list@) =~= range_views(old_list).push(f@));
                }
            }
            i += 1;
        }
        j += 1;
    }
    sort_functions(list)
}

/// The first functions of a list, by their first lines.
fn sort_functions(list: Vec<FunctionRange>) -> (r: Vec<FunctionRange>)
    ensures
        ({
            let sorted = by_start(range_views(list@), list@.len() as int);
            range_views(r@) == (if sorted.len() > SHOWN_FUNCTIONS {
                sorted.take(SHOWN_FUNCTIONS as int)
            } else {
                sorted
            })
        }),
{
    let ghost views = range_views(list@);
    let mut out: Vec<FunctionRange> = Vec::new();
    let mut k: usize = 0;
    assert(range_views(out@) =~= by_start(views, 0));
    while k < list.len()
        invariant
            0 <= k <= list@.len(),
            views == range_views(list@),
            range_views(out@) == by_start(views, k as int),
        decreases list@.len() - k,
    {
        let f = &list[k];
        assert(views[k as int] == f@);
        let ghost before = range_views(out@);
        let mut p: usize = 0;
        while p < out.len() && out[p].start <= f.start
            invariant
                0 <= p <= out@.len(),
                before == range_views(out@),
                place_by_start(before, f.start, 0) == place_by_start(before, f.start, p as int),
            decreases out@.len() - p,
        {
            assert(before[p as int] == out@[p as int]@);
            p += 1;
        }
        proof {
            if p < out@.len() {
                assert(before[p as int] == out@[p as int]@);
            }
        }
        let ghost old_out = out@;
        let copy = FunctionRange { name: f.name.clone(), start: f.start, end: f.end };
        out.insert(p, copy);
        assert(range_views(out@) =~= before.insert(p as int, f@));
        k += 1;
    }
    if out.len() > SHOWN_FUNCTIONS {
        let ghost all = out@;
        out.truncate(SHOWN_FUNCTIONS);
        assert(range_views(out@) =~= range_views(all).take(SHOWN_FUNCTIONS as int));
    }
    out
}

/// The patterns of the lines that open a function.
pub open spec fn function_patterns() -> Seq<Seq<char>> {
    seq![
        "^\\s*(?:pub\\s+)?(?:async\\s+)?fn\\s+(\\w+)"@,
        "^\\s*function\\s+(\\w+)"@,
        "^\\s*(?:export\\s+)?(?:async\\s+)?function\\s+(\\w+)"@,
        "^\\s*(?:const|let|var)\\s+(\\w+)\\s*=\\s*(?:async\\s*)?\\("@,
        "^\\s*(?:pub\\s+)?class\\s+(\\w+)"@,
        "^\\s*def\\s+(\\w+)"@,
    ]
}

/// The name that a pattern finds in a line.
pub open spec fn name_found(pattern: Seq<char>, line: Seq<char>) -> Option<Seq<char>> {
    if patterns::compiles(pattern) {
        patterns::first_group(pattern, line)
    } else {
        None
    }
}

/// The names that the patterns find in the lines.
pub open spec fn names_found(lines: Seq<Seq<char>>) -> Seq<Seq<Option<Seq<char>>>> {
    function_patterns().map_values(
        |p: Seq<char>| lines.map_values(|l: Seq<char>| name_found(p, l)),
    )
}

/// The patterns of the lines that open a function.
fn pattern_texts() -> (r: Vec<String>)
    ensures
        lists::texts(r@) == function_patterns(),
{
    let mut out: Vec<String> = Vec::new();
    out.push("^\\s*(?:pub\\s+)?(?:async\\s+)?fn\\s+(\\w+)".to_owned());
    out.push("^\\s*function\\s+(\\w+)".to_owned());
    out.push("^\\s*(?:export\\s+)?(?:async\\s+)?function\\s+(\\w+)".to_owned());
    out.push("^\\s*(?:const|let|var)\\s+(\\w+)\\s*=\\s*(?:async\\s*)?\\(".to_owned());
    out.push("^\\s*(?:pub\\s+)?class\\s+(\\w+)".to_owned());
    out.push("^\\s*def\\s+(\\w+)".to_owned());
    assert(lists::texts(out@) =~= function_patterns());
    out
}

/// The names that a pattern finds in the lines.
fn find_names(pattern: &str, lines: &Vec<String>) -> (r: Vec<Option<String>>)
    ensures
        row_names(r@) == lists::texts(lines@).map_values(|l: Seq<char>| name_found(pattern@, l)),
{
    let ghost all = lists::texts(lines@).map_values(|l: Seq<char>| name_found(pattern@, l));
    let compiled = regex::Regex::new(pattern);
    let mut out: Vec<Option<String>> = Vec::new();
    let mut i: usize = 0;
    while i < lines.len()
        invariant
            0 <= i <= lines@.len(),
            all == lists::texts(lines@).map_values(|l: Seq<char>| name_found(pattern@, l)),
            compiled is Ok <==> patterns::compiles(pattern@),
            compiled is Ok ==> patterns::pattern_of(compiled->Ok_0) == pattern@,
            row_names(out@) == all.take(i as int),
        decreases lines@.len() - i,
    {
        let name = match &compiled {
            Ok(re) => capture(re, lines[i].as_str()),
            Err(_) => None,
        };
        assert(lists::opt_text(name) == all[i as int]);
        let ghost before = out@;
        out.push(name);
        assert(row_names(out@) =~= row_names(before).push(lists::opt_text(name)));
        i += 1;
        assert(row_names(out@) =~= all.take(i as int));
    }
    assert(row_names(out@) =~= all);
    out
}

/// The first functions that a source text defines.
pub fn extract_function_ranges(content: &str) -> (r: Vec<FunctionRange>)
    ensures
        range_views(r@) == first_functions(
            text::lines(content@),
            names_found(text::lines(content@)),
        ),
{
    let lines = lines_of(content);
    let size: usize = chars_of(content).len();
    let list = pattern_texts();
    let ghost all = names_found(text::lines(content@));
    let mut hits: Vec<Vec<Option<String>>> = Vec::new();
    let mut j: usize = 0;
    while j < list.len()
        invariant
            0 <= j <= list@.len(),
            lists::texts(lines@) == text::lines(content@),
            lists::texts(list@) == function_patterns(),
            all == names_found(text::lines(content@)),
            all_row_names(hits@) == all.take(j as int),
        decreases list@.len() - j,
    {
        let row = find_names(list[j].as_str(), &lines);
        assert(function_patterns()[j as int] == list@[j as int]@);
        assert(row_names(row@) == all[j as int]);
        let ghost before = hits@;
        hits.push(row);
        assert(all_row_names(hits@) =~= all_row_names(before).push(row_names(row@)));
        j += 1;
        assert(all_row_names(hits@) =~= all.take(j as int));
    }
    proof {
        assert(all_row_names(hits@) =~= all);
        lemma_lines_total(content@);
        assert forall|i: int| 0 <= i < hits@.len() implies (#[trigger] hits@[i])@.len()
            == lines@.len() by {
            assert(row_names(hits@[i]@) == all_row_names(hits@)[i]);
            assert(all[i].len() == text::lines(content@).len());
        }
    }
    collect_functions(&lines, &hits)
}

} // verus!
