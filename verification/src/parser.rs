//! Reading the text of a patch.

use vstd::prelude::*;
use vstd::string::*;

pub use crate::patch::{DiffLine, FileOp, Hunk};

use crate::error;
use crate::error::{cat2, cat3, PatchError};
use crate::lists;
use crate::numbers;
use crate::numbers::number_of;
use crate::patch;
use crate::similarity::Threshold;
use crate::text;
use crate::text::{
    after_prefix, chars_of, has_prefix, join_rows, push_all, same_chars, slice_of, split_at_each,
    split_lines, split_words, string_of, strings_of, trimmed,
};
use crate::threshold;
use crate::threshold::{read_threshold, show_number, ThresholdText};

verus! {

broadcast use {crate::lists::group_lists, crate::patch::group_patch};

/// What a patch says.
#[derive(Debug)]
pub struct ParseResult {
    pub ops: Vec<FileOp>,
    /// The threshold that the patch names.
    pub threshold: Option<Threshold>,
}

/// The contents of a `ParseResult`.
#[verifier::ext_equal]
pub struct ParseView {
    pub ops: Seq<patch::FileOpView>,
    pub threshold: Option<Threshold>,
}

impl View for ParseResult {
    type V = ParseView;

    open spec fn view(&self) -> ParseView {
        ParseView { ops: patch::op_views(self.ops@), threshold: self.threshold }
    }
}

// ---------------------------------------------------------------------------
// Native blocks
// ---------------------------------------------------------------------------

/// Whether a line begins a patch.
pub open spec fn is_begin(line: Seq<char>) -> bool {
    text::starts_with(text::trim(line), "=== begin"@)
}

/// Whether a line ends a patch.
pub open spec fn is_end(line: Seq<char>) -> bool {
    text::trim(line) == "=== end"@
}

/// Whether a line begins a native block.
pub open spec fn is_native_begin(line: Seq<char>) -> bool {
    text::trim(line) == "*** Begin Patch"@
}

/// Whether some line begins a patch.
pub open spec fn any_begin(lines: Seq<Seq<char>>) -> bool {
    exists|i: int| 0 <= i < lines.len() && is_begin(#[trigger] lines[i])
}

/// Whether some line ends a patch.
pub open spec fn any_end(lines: Seq<Seq<char>>) -> bool {
    exists|i: int| 0 <= i < lines.len() && is_end(#[trigger] lines[i])
}

/// Whether some line begins a native block.
pub open spec fn any_native_begin(lines: Seq<Seq<char>>) -> bool {
    exists|i: int| 0 <= i < lines.len() && is_native_begin(#[trigger] lines[i])
}

/// Whether some line is the header of an operation.
pub open spec fn any_header(lines: Seq<Seq<char>>) -> bool {
    exists|i: int| 0 <= i < lines.len() && is_header(#[trigger] lines[i])
}

/// A line of a native block as a line of a patch.
pub open spec fn from_native(line: Seq<char>) -> Seq<char> {
    if is_native_begin(line) {
        "=== begin"@
    } else if text::trim(line) == "*** End Patch"@ {
        "=== end"@
    } else if let Some(rest) = text::strip_prefix(line, "*** Add File: "@) {
        "create "@ + rest
    } else if let Some(rest) = text::strip_prefix(line, "*** Update File: "@) {
        "update "@ + rest
    } else if let Some(rest) = text::strip_prefix(line, "*** Delete File: "@) {
        "delete "@ + rest
    } else if let Some(rest) = text::strip_prefix(line, "*** Read File: "@) {
        "read "@ + rest
    } else if let Some(rest) = text::strip_prefix(line, "*** Move to: "@) {
        "move_to "@ + rest
    } else {
        line
    }
}

/// The text of a patch, where a native block is rewritten line by line.
pub open spec fn unified(input: Seq<char>) -> Seq<char> {
    let lines = text::lines(input);
    if !any_begin(lines) && any_native_begin(lines) {
        text::join(lines.map_values(|l: Seq<char>| from_native(l)), "\n"@)
    } else {
        input
    }
}

/// The text of a patch with the markers that it lacks.
pub open spec fn wrapped(input: Seq<char>) -> Seq<char> {
    let lines = text::lines(input);
    let begun = if !any_begin(lines) && any_header(lines) {
        "=== begin\n"@ + input
    } else {
        input
    };
    if any_end(lines) {
        begun
    } else {
        begun + "\n=== end"@
    }
}

// ---------------------------------------------------------------------------
// Headers
// ---------------------------------------------------------------------------

/// What an operation does.
pub enum Verb {
    Create,
    Write,
    Update,
    Delete,
    Read,
    MapDir,
    Move,
}

/// The verb of a header, and what follows it.
pub open spec fn header_parts(line: Seq<char>) -> Option<(Verb, Seq<char>)> {
    if let Some(rest) = text::strip_prefix(line, "create "@) {
        Some((Verb::Create, rest))
    } else if let Some(rest) = text::strip_prefix(line, "write "@) {
        Some((Verb::Write, rest))
    } else if let Some(rest) = text::strip_prefix(line, "update "@) {
        Some((Verb::Update, rest))
    } else if let Some(rest) = text::strip_prefix(line, "delete "@) {
        Some((Verb::Delete, rest))
    } else if let Some(rest) = text::strip_prefix(line, "read "@) {
        Some((Verb::Read, rest))
    } else if let Some(rest) = text::strip_prefix(line, "view "@) {
        Some((Verb::Read, rest))
    } else if let Some(rest) = text::strip_prefix(line, "map "@) {
        Some((Verb::MapDir, rest))
    } else if let Some(rest) = text::strip_prefix(line, "move "@) {
        Some((Verb::Move, rest))
    } else {
        None
    }
}

/// Whether a line is the header of an operation.
pub open spec fn is_header(line: Seq<char>) -> bool {
    header_parts(line) is Some
}

/// The first header in `lines` from `from` on, or their end.
pub open spec fn next_header(lines: Seq<Seq<char>>, from: int) -> int
    decreases lines.len() - from,
{
    if from < 0 || from >= lines.len() {
        lines.len() as int
    } else if is_header(lines[from]) {
        from
    } else {
        next_header(lines, from + 1)
    }
}

// ---------------------------------------------------------------------------
// The body of a file
// ---------------------------------------------------------------------------

/// The lines without the empty ones at their end.
pub open spec fn without_last_blanks(lines: Seq<Seq<char>>) -> Seq<Seq<char>>
    decreases lines.len(),
{
    if lines.len() > 0 && lines.last().len() == 0 {
        without_last_blanks(lines.drop_last())
    } else {
        lines
    }
}

/// Whether every line is marked as one that comes in.
pub open spec fn all_added(lines: Seq<Seq<char>>) -> bool {
    forall|i: int| 0 <= i < lines.len() ==> text::starts_with(#[trigger] lines[i], "+"@)
}

/// The text of a new file. The lines may all be marked with `+`.
pub open spec fn body_text(section: Seq<Seq<char>>) -> Seq<char> {
    let lines = without_last_blanks(section);
    if lines.len() == 0 {
        Seq::empty()
    } else if all_added(lines) {
        text::join(lines.map_values(|l: Seq<char>| l.skip(1)), "\n"@) + "\n"@
    } else {
        text::join(lines, "\n"@) + "\n"@
    }
}

// ---------------------------------------------------------------------------
// Reading and mapping
// ---------------------------------------------------------------------------

/// What to read of a file.
pub struct ReadSpec {
    pub path: String,
    pub symbols: Option<Vec<String>>,
    pub language: Option<String>,
    pub offset: Option<usize>,
    pub limit: Option<usize>,
}

/// The contents of a `ReadSpec`.
#[verifier::ext_equal]
pub struct ReadView {
    pub path: Seq<char>,
    pub symbols: Option<Seq<Seq<char>>>,
    pub language: Option<Seq<char>>,
    pub offset: Option<usize>,
    pub limit: Option<usize>,
}

impl View for ReadSpec {
    type V = ReadView;

    open spec fn view(&self) -> ReadView {
        ReadView {
            path: self.path@,
            symbols: patch::opt_texts(self.symbols),
            language: lists::opt_text(self.language),
            offset: self.offset,
            limit: self.limit,
        }
    }
}

/// The value of the last of the first `k` words that set `key`.
pub open spec fn setting(words: Seq<Seq<char>>, key: Seq<char>, k: int) -> Option<Seq<char>>
    decreases k,
{
    if k <= 0 {
        None
    } else if let Some(value) = text::strip_prefix(words[k - 1], key) {
        Some(value)
    } else {
        setting(words, key, k - 1)
    }
}

/// The value of the last of the first `k` words that set `key` to a number.
pub open spec fn number_setting(words: Seq<Seq<char>>, key: Seq<char>, k: int) -> Option<usize>
    decreases k,
{
    if k <= 0 {
        None
    } else if text::starts_with(words[k - 1], key) && numbers::parse_number(
        words[k - 1].skip(key.len() as int),
    ) is Some {
        numbers::parse_number(words[k - 1].skip(key.len() as int))
    } else {
        number_setting(words, key, k - 1)
    }
}

/// The lines before the first one that is wanted: one less than `start`, else `offset`.
pub open spec fn read_offset(offset: Option<usize>, start: Option<usize>) -> Option<usize> {
    match start {
        Some(n) => Some(
            (if n > 0 {
                n - 1
            } else {
                0
            }) as usize,
        ),
        None => offset,
    }
}

/// How many lines are wanted: those up to `end`, else `limit`, else, from `start` on, all.
pub open spec fn read_limit(
    offset: Option<usize>,
    limit: Option<usize>,
    start: Option<usize>,
    end: Option<usize>,
) -> Option<usize> {
    let first = match read_offset(offset, start) {
        Some(n) => n as int,
        None => 0,
    };
    match end {
        Some(n) => Some(
            (if n > first {
                n - first
            } else {
                0
            }) as usize,
        ),
        None => if limit is None && start is Some {
            Some(usize::MAX)
        } else {
            limit
        },
    }
}

/// What the words of a header say about reading.
pub open spec fn read_spec(words: Seq<Seq<char>>) -> ReadView {
    let params = words.skip(1);
    let n = params.len() as int;
    let offset = number_setting(params, "offset="@, n);
    let limit = number_setting(params, "limit="@, n);
    let start = number_setting(params, "start="@, n);
    let end = number_setting(params, "end="@, n);
    ReadView {
        path: words[0],
        symbols: match setting(params, "symbols="@, n) {
            Some(list) => Some(text::split(list, ',')),
            None => None,
        },
        language: setting(params, "language="@, n),
        offset: read_offset(offset, start),
        limit: read_limit(offset, limit, start, end),
    }
}

/// What to map.
pub struct MapSpec {
    pub path: String,
    pub depth: Option<usize>,
    pub output_limit: Option<usize>,
}

/// The contents of a `MapSpec`.
#[verifier::ext_equal]
pub struct MapView {
    pub path: Seq<char>,
    pub depth: Option<usize>,
    pub output_limit: Option<usize>,
}

impl View for MapSpec {
    type V = MapView;

    open spec fn view(&self) -> MapView {
        MapView { path: self.path@, depth: self.depth, output_limit: self.output_limit }
    }
}

/// A setting as a number, where it is one.
pub open spec fn as_number(value: Option<Seq<char>>) -> Option<usize> {
    match value {
        Some(v) => numbers::parse_number(v),
        None => None,
    }
}

/// What the words of a header say about mapping.
pub open spec fn map_spec(words: Seq<Seq<char>>) -> MapView {
    let params = words.skip(1);
    let n = params.len() as int;
    MapView {
        path: words[0],
        depth: as_number(setting(params, "depth="@, n)),
        output_limit: as_number(setting(params, "limit="@, n)),
    }
}

// ---------------------------------------------------------------------------
// Updates
// ---------------------------------------------------------------------------

/// A line of a hunk: one that goes or comes in, marked with `-` or `+` at its start or behind
/// two spaces; or one that stays, behind two spaces or one, or a row of a table.
pub open spec fn diff_line(line: Seq<char>) -> Option<patch::DiffLineView> {
    if let Some(rest) = text::strip_prefix(line, "  -"@) {
        Some(patch::DiffLineView::Remove(rest))
    } else if let Some(rest) = text::strip_prefix(line, "  +"@) {
        Some(patch::DiffLineView::Add(rest))
    } else if let Some(rest) = text::strip_prefix(line, "-"@) {
        Some(patch::DiffLineView::Remove(rest))
    } else if let Some(rest) = text::strip_prefix(line, "+"@) {
        Some(patch::DiffLineView::Add(rest))
    } else if let Some(rest) = text::strip_prefix(line, "  "@) {
        Some(patch::DiffLineView::Context(rest))
    } else if let Some(rest) = text::strip_prefix(line, " "@) {
        Some(patch::DiffLineView::Context(rest))
    } else if text::starts_with(line, "|"@) {
        Some(patch::DiffLineView::Context(line))
    } else {
        None
    }
}

/// How far an update has been read.
#[verifier::ext_equal]
pub struct UpdateView {
    pub hunks: Seq<patch::HunkView>,
    pub current: Option<patch::HunkView>,
    pub move_to: Option<Seq<char>>,
}

/// The hunks with the one that is being read.
pub open spec fn flushed(u: UpdateView) -> Seq<patch::HunkView> {
    match u.current {
        Some(h) => u.hunks.push(h),
        None => u.hunks,
    }
}

/// The hint of a hunk, where it has one.
pub open spec fn hint_of(rest: Seq<char>) -> Option<Seq<char>> {
    if text::trim(rest).len() == 0 {
        None
    } else {
        Some(text::trim(rest))
    }
}

/// The hunk with a line more.
pub open spec fn with_line(current: Option<patch::HunkView>, line: patch::DiffLineView) -> patch::HunkView {
    match current {
        Some(h) => patch::HunkView { context_hint: h.context_hint, lines: h.lines.push(line) },
        None => patch::HunkView { context_hint: None, lines: seq![line] },
    }
}

/// The update after one line more.
pub open spec fn update_step(u: UpdateView, line: Seq<char>) -> UpdateView {
    if let Some(dest) = text::strip_prefix(line, "move_to "@) {
        UpdateView { hunks: u.hunks, current: u.current, move_to: Some(text::trim(dest)) }
    } else if text::trim(line) == "*** End of File"@ {
        UpdateView { hunks: flushed(u), current: None, move_to: u.move_to }
    } else if let Some(rest) = text::strip_prefix(text::trim(line), "@@"@) {
        UpdateView {
            hunks: flushed(u),
            current: Some(patch::HunkView { context_hint: hint_of(rest), lines: Seq::empty() }),
            move_to: u.move_to,
        }
    } else {
        match diff_line(line) {
            Some(d) => UpdateView {
                hunks: u.hunks,
                current: Some(with_line(u.current, d)),
                move_to: u.move_to,
            },
            None => u,
        }
    }
}

/// The update that the first `k` lines say.
pub open spec fn update_upto(section: Seq<Seq<char>>, k: int) -> UpdateView
    decreases k,
{
    if k <= 0 {
        UpdateView { hunks: Seq::empty(), current: None, move_to: None }
    } else {
        update_step(update_upto(section, k - 1), section[k - 1])
    }
}

// ---------------------------------------------------------------------------
// Operations
// ---------------------------------------------------------------------------

/// An error in the text of a patch.
pub open spec fn malformed(message: Seq<char>) -> error::PatchErrorView {
    error::PatchErrorView::Parse(message)
}

/// The operation of a header and the lines under it.
pub open spec fn operation(header: Seq<char>, section: Seq<Seq<char>>) -> Result<
    patch::FileOpView,
    error::PatchErrorView,
> {
    let (verb, rest) = header_parts(header)->0;
    let path = text::trim(rest);
    let words = text::words(rest);
    match verb {
        Verb::Create => Ok(patch::FileOpView::Add { path, content: body_text(section) }),
        Verb::Write => Ok(patch::FileOpView::Write { path, content: body_text(section) }),
        Verb::Delete => Ok(patch::FileOpView::Delete { path }),
        Verb::Update => {
            let u = update_upto(section, section.len() as int);
            Ok(patch::FileOpView::Update { path, hunks: flushed(u), move_to: u.move_to })
        },
        Verb::Read => if words.len() == 0 {
            Err(malformed("Missing path in read operation"@))
        } else {
            let s = read_spec(words);
            Ok(
                patch::FileOpView::Read {
                    path: s.path,
                    symbols: s.symbols,
                    language: s.language,
                    offset: s.offset,
                    limit: s.limit,
                },
            )
        },
        Verb::MapDir => if words.len() == 0 {
            Err(malformed("Missing path in map operation"@))
        } else {
            let s = map_spec(words);
            Ok(
                patch::FileOpView::MapDir {
                    path: s.path,
                    depth: s.depth,
                    output_limit: s.output_limit,
                },
            )
        },
        Verb::Move => if words.len() == 2 {
            Ok(patch::FileOpView::Move { from: words[0], to: words[1] })
        } else {
            Err(malformed("Move operation needs a source and a destination path"@))
        },
    }
}

/// The operations of a body from the header at `at` on.
pub open spec fn operations(body: Seq<Seq<char>>, at: int) -> Result<
    Seq<patch::FileOpView>,
    error::PatchErrorView,
>
    decreases body.len() - at,
{
    if at < 0 || at >= body.len() {
        Ok(Seq::empty())
    } else {
        let next = next_header(body, at + 1);
        match operation(body[at], body.subrange(at + 1, next)) {
            Err(e) => Err(e),
            Ok(op) => {
                proof {
                    lemma_next_header(body, at + 1);
                }
                match operations(body, next) {
                    Err(e) => Err(e),
                    Ok(rest) => Ok(seq![op] + rest),
                }
            },
        }
    }
}

/// A next header comes after the place that is looked from, or not at all.
pub proof fn lemma_next_header(lines: Seq<Seq<char>>, from: int)
    requires
        0 <= from <= lines.len(),
    ensures
        from <= next_header(lines, from) <= lines.len(),
        next_header(lines, from) < lines.len() ==> is_header(lines[next_header(lines, from)]),
    decreases lines.len() - from,
{
    if from < lines.len() && !is_header(lines[from]) {
        lemma_next_header(lines, from + 1);
    }
}

// ---------------------------------------------------------------------------
// Patches
// ---------------------------------------------------------------------------

/// The first line from `from` on that begins a patch.
pub open spec fn begin_index(lines: Seq<Seq<char>>, from: int) -> Option<int>
    decreases lines.len() - from,
{
    if from < 0 || from >= lines.len() {
        None
    } else if is_begin(lines[from]) {
        Some(from)
    } else {
        begin_index(lines, from + 1)
    }
}

/// The first line from `from` on that ends a patch.
pub open spec fn end_index(lines: Seq<Seq<char>>, from: int) -> Option<int>
    decreases lines.len() - from,
{
    if from < 0 || from >= lines.len() {
        None
    } else if is_end(lines[from]) {
        Some(from)
    } else {
        end_index(lines, from + 1)
    }
}

/// The first of the words from `from` on that sets the threshold, and its value.
pub open spec fn threshold_word(words: Seq<Seq<char>>, from: int) -> Option<Seq<char>>
    decreases words.len() - from,
{
    if from < 0 || from >= words.len() {
        None
    } else if let Some(value) = text::strip_prefix(words[from], "threshold="@) {
        Some(value)
    } else {
        threshold_word(words, from + 1)
    }
}

/// The threshold that the first line of a patch names. A value that is none is shown as it is
/// written, one that is out of range as a number.
pub open spec fn begin_threshold(line: Seq<char>) -> Result<
    Option<Threshold>,
    error::PatchErrorView,
> {
    let rest = text::trim(line).skip("=== begin"@.len() as int);
    match threshold_word(text::words(rest), 0) {
        None => Ok(None),
        Some(value) => match threshold::threshold_text(value) {
            ThresholdText::Valid(t) => Ok(Some(t)),
            ThresholdText::OutOfRange => Err(
                malformed(
                    "Threshold must be between 0.0 and 1.0, got "@ + threshold::number_text(value),
                ),
            ),
            ThresholdText::Invalid => Err(
                malformed("Invalid threshold value: '"@ + value + "'"@),
            ),
        },
    }
}

/// What the lines of a patch say.
pub open spec fn parsed_lines(lines: Seq<Seq<char>>) -> Result<ParseView, error::PatchErrorView> {
    match (begin_index(lines, 0), end_index(lines, 0)) {
        (None, _) => Err(malformed("Missing '=== begin' marker"@)),
        (_, None) => Err(malformed("Missing '=== end' marker"@)),
        (Some(b), Some(e)) => if e <= b {
            Err(malformed("'=== end' must come after '=== begin'"@))
        } else {
            match begin_threshold(lines[b]) {
                Err(x) => Err(x),
                Ok(t) => {
                    let body = lines.subrange(b + 1, e);
                    match operations(body, next_header(body, 0)) {
                        Err(x) => Err(x),
                        Ok(ops) => Ok(ParseView { ops, threshold: t }),
                    }
                },
            }
        },
    }
}

/// What the text of a patch says.
pub open spec fn parsed(input: Seq<char>) -> Result<ParseView, error::PatchErrorView> {
    parsed_lines(text::lines(wrapped(unified(input))))
}

// ---------------------------------------------------------------------------
// The reader
// ---------------------------------------------------------------------------

/// Whether a row is the text `s`.
fn row_is(v: &Vec<char>, s: &str) -> (r: bool)
    ensures
        r == (v@ == s@),
{
    same_chars(v, &chars_of(s))
}

/// Whether a line begins a patch.
fn begins(line: &Vec<char>) -> (r: bool)
    ensures
        r == is_begin(line@),
{
    has_prefix(&trimmed(line), "=== begin")
}

/// Whether a line ends a patch.
fn ends(line: &Vec<char>) -> (r: bool)
    ensures
        r == is_end(line@),
{
    row_is(&trimmed(line), "=== end")
}

/// The text `a` and what follows the prefix `p` in the line.
fn replaced_prefix(line: &Vec<char>, p: &str, a: &str) -> (r: Option<Vec<char>>)
    ensures
        match r {
            Some(v) => text::strip_prefix(line@, p@) is Some && v@ == a@ + text::strip_prefix(
                line@,
                p@,
            )->0,
            None => text::strip_prefix(line@, p@) is None,
        },
{
    match after_prefix(line, p) {
        Some(rest) => {
            let mut out = chars_of(a);
            push_all(&mut out, &rest);
            Some(out)
        },
        None => None,
    }
}

/// A line of a native block as a line of a patch.
fn native_line(line: &Vec<char>) -> (r: Vec<char>)
    ensures
        r@ == from_native(line@),
{
    let t = trimmed(line);
    if row_is(&t, "*** Begin Patch") {
        return chars_of("=== begin");
    }
    if row_is(&t, "*** End Patch") {
        return chars_of("=== end");
    }
    if let Some(r) = replaced_prefix(line, "*** Add File: ", "create ") {
        return r;
    }
    if let Some(r) = replaced_prefix(line, "*** Update File: ", "update ") {
        return r;
    }
    if let Some(r) = replaced_prefix(line, "*** Delete File: ", "delete ") {
        return r;
    }
    if let Some(r) = replaced_prefix(line, "*** Read File: ", "read ") {
        return r;
    }
    if let Some(r) = replaced_prefix(line, "*** Move to: ", "move_to ") {
        return r;
    }
    slice_of(line, 0, line.len())
}

/// What the lines of a patch text are.
struct Markers {
    begin: bool,
    end: bool,
    native: bool,
    header: bool,
}

/// Looks for markers and headers.
fn markers(rows: &Vec<Vec<char>>) -> (r: Markers)
    ensures
        r.begin == any_begin(lists::rows(rows@)),
        r.end == any_end(lists::rows(rows@)),
        r.native == any_native_begin(lists::rows(rows@)),
        r.header == any_header(lists::rows(rows@)),
{
    let ghost lines = lists::rows(rows@);
    let mut m = Markers { begin: false, end: false, native: false, header: false };
    let mut i: usize = 0;
    while i < rows.len()
        invariant
            0 <= i <= rows@.len(),
            lines == lists::rows(rows@),
            m.begin == any_begin(lines.take(i as int)),
            m.end == any_end(lines.take(i as int)),
            m.native == any_native_begin(lines.take(i as int)),
            m.header == any_header(lines.take(i as int)),
        decreases rows@.len() - i,
    {
        let row = &rows[i];
        let ghost before = lines.take(i as int);
        let ghost after = lines.take(i + 1);
        proof {
            assert(forall|j: int| 0 <= j < i ==> after[j] == before[j]);
            assert(after[i as int] == row@);
        }
        let b = begins(row);
        let e = ends(row);
        let n = row_is(&trimmed(row), "*** Begin Patch");
        let h = header(row).is_some();
        m = Markers {
            begin: m.begin || b,
            end: m.end || e,
            native: m.native || n,
            header: m.header || h,
        };
        proof {
            assert(any_begin(after) == (any_begin(before) || is_begin(row@))) by {
                if any_begin(before) {
                    let j = choose|j: int| 0 <= j < before.len() && is_begin(before[j]);
                    assert(is_begin(after[j]));
                }
                if any_begin(after) {
                    let j = choose|j: int| 0 <= j < after.len() && is_begin(after[j]);
                    if j < i {
                        assert(is_begin(before[j]));
                    }
                }
            }
            assert(any_end(after) == (any_end(before) || is_end(row@))) by {
                if any_end(before) {
                    let j = choose|j: int| 0 <= j < before.len() && is_end(before[j]);
                    assert(is_end(after[j]));
                }
                if any_end(after) {
                    let j = choose|j: int| 0 <= j < after.len() && is_end(after[j]);
                    if j < i {
                        assert(is_end(before[j]));
                    }
                }
            }
            assert(any_native_begin(after) == (any_native_begin(before) || is_native_begin(row@)))
                by {
                if any_native_begin(before) {
                    let j = choose|j: int| 0 <= j < before.len() && is_native_begin(before[j]);
                    assert(is_native_begin(after[j]));
                }
                if any_native_begin(after) {
                    let j = choose|j: int| 0 <= j < after.len() && is_native_begin(after[j]);
                    if j < i {
                        assert(is_native_begin(before[j]));
                    }
                }
            }
            assert(any_header(after) == (any_header(before) || is_header(row@))) by {
                if any_header(before) {
                    let j = choose|j: int| 0 <= j < before.len() && is_header(before[j]);
                    assert(is_header(after[j]));
                }
                if any_header(after) {
                    let j = choose|j: int| 0 <= j < after.len() && is_header(after[j]);
                    if j < i {
                        assert(is_header(before[j]));
                    }
                }
            }
        }
        i += 1;
    }
    assert(lines.take(i as int) =~= lines);
    m
}

/// The text of a patch, where a native block is rewritten line by line.
fn unify(input: &Vec<char>) -> (r: Vec<char>)
    ensures
        r@ == unified(input@),
{
    let rows = split_lines(input);
    let m = markers(&rows);
    if !m.begin && m.native {
        let ghost all = lists::rows(rows@).map_values(|l: Seq<char>| from_native(l));
        let mut out: Vec<Vec<char>> = Vec::new();
        let mut i: usize = 0;
        while i < rows.len()
            invariant
                0 <= i <= rows@.len(),
                all == lists::rows(rows@).map_values(|l: Seq<char>| from_native(l)),
                lists::rows(out@) == all.take(i as int),
            decreases rows@.len() - i,
        {
            out.push(native_line(&rows[i]));
            i += 1;
            assert(lists::rows(out@) =~= all.take(i as int));
        }
        assert(lists::rows(out@) =~= all);
        join_rows(&out, "\n")
    } else {
        slice_of(input, 0, input.len())
    }
}

/// The text of a patch with the markers that it lacks.
fn wrap(input: &Vec<char>) -> (r: Vec<char>)
    ensures
        r@ == wrapped(input@),
{
    let m = markers(&split_lines(input));
    let mut out = if !m.begin && m.header {
        chars_of("=== begin\n")
    } else {
        Vec::new()
    };
    push_all(&mut out, input);
    assert(Seq::<char>::empty() + input@ =~= input@);
    if !m.end {
        push_all(&mut out, &chars_of("\n=== end"));
    }
    out
}

/// The verb of a header, and what follows it.
fn header(line: &Vec<char>) -> (r: Option<(Verb, Vec<char>)>)
    ensures
        match r {
            Some(p) => header_parts(line@) == Some((p.0, p.1@)),
            None => header_parts(line@) is None,
        },
{
    if let Some(rest) = after_prefix(line, "create ") {
        return Some((Verb::Create, rest));
    }
    if let Some(rest) = after_prefix(line, "write ") {
        return Some((Verb::Write, rest));
    }
    if let Some(rest) = after_prefix(line, "update ") {
        return Some((Verb::Update, rest));
    }
    if let Some(rest) = after_prefix(line, "delete ") {
        return Some((Verb::Delete, rest));
    }
    if let Some(rest) = after_prefix(line, "read ") {
        return Some((Verb::Read, rest));
    }
    if let Some(rest) = after_prefix(line, "view ") {
        return Some((Verb::Read, rest));
    }
    if let Some(rest) = after_prefix(line, "map ") {
        return Some((Verb::MapDir, rest));
    }
    if let Some(rest) = after_prefix(line, "move ") {
        return Some((Verb::Move, rest));
    }
    None
}

/// A copy of the rows from `from` to `to`.
fn slice_rows(rows: &Vec<Vec<char>>, from: usize, to: usize) -> (r: Vec<Vec<char>>)
    requires
        from <= to <= rows@.len(),
    ensures
        lists::rows(r@) == lists::rows(rows@).subrange(from as int, to as int),
{
    let mut out: Vec<Vec<char>> = Vec::new();
    let mut i: usize = from;
    while i < to
        invariant
            from <= i <= to <= rows@.len(),
            lists::rows(out@) == lists::rows(rows@).subrange(from as int, i as int),
        decreases to - i,
    {
        let row = slice_of(&rows[i], 0, rows[i].len());
        assert(row@ =~= rows@[i as int]@);
        out.push(row);
        i += 1;
        assert(lists::rows(out@) =~= lists::rows(rows@).subrange(from as int, i as int));
    }
    out
}

/// The text of a new file.
pub fn parse_add_content(lines: &Vec<Vec<char>>) -> (r: String)
    ensures
        r@ == body_text(lists::rows(lines@)),
{
    let ghost section = lists::rows(lines@);
    let mut n: usize = lines.len();
    assert(section.take(n as int) =~= section);
    while n > 0 && lines[n - 1].len() == 0
        invariant
            0 <= n <= lines@.len(),
            section == lists::rows(lines@),
            without_last_blanks(section) == without_last_blanks(section.take(n as int)),
        decreases n,
    {
        assert(section.take(n as int).last() == lines@[n - 1]@);
        assert(section.take(n as int).drop_last() =~= section.take(n - 1));
        n -= 1;
    }
    let ghost kept = section.take(n as int);
    assert(without_last_blanks(section) == kept) by {
        if n > 0 {
            assert(kept.last() == lines@[n - 1]@);
        }
    }
    if n == 0 {
        let none = String::new();
        assert(none@ =~= Seq::empty());
        return none;
    }
    let mut plus = true;
    let mut i: usize = 0;
    while i < n
        invariant
            0 <= i <= n <= lines@.len(),
            section == lists::rows(lines@),
            kept == section.take(n as int),
            plus == all_added(kept.take(i as int)),
        decreases n - i,
    {
        let row = &lines[i];
        let one = has_prefix(row, "+");
        let ghost before = kept.take(i as int);
        let ghost after = kept.take(i + 1);
        proof {
            assert(after[i as int] == row@);
            assert(forall|j: int| 0 <= j < i ==> after[j] == before[j]);
            if all_added(after) {
                assert(text::starts_with(after[i as int], "+"@));
                assert forall|j: int| 0 <= j < before.len() implies text::starts_with(
                    #[trigger] before[j],
                    "+"@,
                ) by {
                    assert(text::starts_with(after[j], "+"@));
                }
            }
        }
        plus = plus && one;
        i += 1;
    }
    assert(kept.take(n as int) =~= kept);
    let mut out: Vec<Vec<char>> = Vec::new();
    let ghost wanted = if plus {
        kept.map_values(|l: Seq<char>| l.skip(1))
    } else {
        kept
    };
    proof {
        reveal_strlit("+");
    }
    let mut k: usize = 0;
    while k < n
        invariant
            0 <= k <= n <= lines@.len(),
            section == lists::rows(lines@),
            kept == section.take(n as int),
            plus ==> all_added(kept),
            "+"@.len() == 1,
            wanted == (if plus {
                kept.map_values(|l: Seq<char>| l.skip(1))
            } else {
                kept
            }),
            lists::rows(out@) == wanted.take(k as int),
        decreases n - k,
    {
        let row = &lines[k];
        assert(kept[k as int] == row@);
        if plus {
            assert(text::starts_with(kept[k as int], "+"@));
            let rest = slice_of(row, 1, row.len());
            assert(rest@ =~= row@.skip(1));
            out.push(rest);
        } else {
            let copy = slice_of(row, 0, row.len());
            assert(copy@ =~= row@);
            out.push(copy);
        }
        k += 1;
        assert(lists::rows(out@) =~= wanted.take(k as int));
    }
    assert(lists::rows(out@) =~= wanted);
    let mut body = join_rows(&out, "\n");
    push_all(&mut body, &chars_of("\n"));
    string_of(&body)
}

/// The value of the last word behind the first that sets `key`.
fn last_setting(words: &Vec<Vec<char>>, key: &str) -> (r: Option<Vec<char>>)
    requires
        words@.len() > 0,
    ensures
        match r {
            Some(v) => setting(lists::rows(words@).skip(1), key@, words@.len() - 1) == Some(v@),
            None => setting(lists::rows(words@).skip(1), key@, words@.len() - 1) is None,
        },
{
    let ghost params = lists::rows(words@).skip(1);
    let mut k: usize = words.len();
    while k > 1
        invariant
            1 <= k <= words@.len(),
            params == lists::rows(words@).skip(1),
            setting(params, key@, words@.len() - 1) == setting(params, key@, k - 1),
        decreases k,
    {
        assert(params[k - 2] == words@[k - 1]@);
        if let Some(v) = after_prefix(&words[k - 1], key) {
            return Some(v);
        }
        k -= 1;
    }
    None
}

/// The value of the last word behind the first that sets `key` to a number.
fn last_number(words: &Vec<Vec<char>>, key: &str) -> (r: Option<usize>)
    requires
        words@.len() > 0,
    ensures
        r == number_setting(lists::rows(words@).skip(1), key@, words@.len() - 1),
{
    let ghost params = lists::rows(words@).skip(1);
    let mut k: usize = words.len();
    while k > 1
        invariant
            1 <= k <= words@.len(),
            params == lists::rows(words@).skip(1),
            number_setting(params, key@, words@.len() - 1) == number_setting(params, key@, k - 1),
        decreases k,
    {
        assert(params[k - 2] == words@[k - 1]@);
        if let Some(v) = after_prefix(&words[k - 1], key) {
            if let Some(n) = number_of(&v) {
                return Some(n);
            }
        }
        k -= 1;
    }
    None
}

/// What the words of a header say about reading.
pub fn parse_read_spec(words: &Vec<Vec<char>>) -> (r: ReadSpec)
    requires
        words@.len() > 0,
    ensures
        r@ == read_spec(lists::rows(words@)),
{
    let offset: Option<usize> = last_number(words, "offset=");
    let limit: Option<usize> = last_number(words, "limit=");
    let start: Option<usize> = last_number(words, "start=");
    let end: Option<usize> = last_number(words, "end=");
    let from: Option<usize> = match start {
        Some(n) => Some(
            if n > 0 {
                n - 1
            } else {
                0
            },
        ),
        None => offset,
    };
    let first: usize = match from {
        Some(n) => n,
        None => 0,
    };
    let count: Option<usize> = match end {
        Some(n) => Some(
            if n > first {
                n - first
            } else {
                0
            },
        ),
        None => if limit.is_none() && start.is_some() {
            Some(usize::MAX)
        } else {
            limit
        },
    };
    let symbols = match last_setting(words, "symbols=") {
        Some(list) => Some(strings_of(&split_at_each(&list, ','))),
        None => None,
    };
    let language = match last_setting(words, "language=") {
        Some(v) => Some(string_of(&v)),
        None => None,
    };
    let r = ReadSpec {
        path: string_of(&words[0]),
        symbols,
        language,
        offset: from,
        limit: count,
    };
    assert(r@ =~~= read_spec(lists::rows(words@)));
    r
}

/// What the words of a header say about mapping.
pub fn parse_map_spec(words: &Vec<Vec<char>>) -> (r: MapSpec)
    requires
        words@.len() > 0,
    ensures
        r@ == map_spec(lists::rows(words@)),
{
    let depth: Option<usize> = match last_setting(words, "depth=") {
        Some(v) => number_of(&v),
        None => None,
    };
    let output_limit: Option<usize> = match last_setting(words, "limit=") {
        Some(v) => number_of(&v),
        None => None,
    };
    MapSpec { path: string_of(&words[0]), depth, output_limit }
}

/// A line of a hunk.
fn parse_diff_line(line: &Vec<char>) -> (r: Option<DiffLine>)
    ensures
        match r {
            Some(d) => diff_line(line@) == Some(d@),
            None => diff_line(line@) is None,
        },
{
    if let Some(rest) = after_prefix(line, "  -") {
        return Some(DiffLine::Remove(string_of(&rest)));
    }
    if let Some(rest) = after_prefix(line, "  +") {
        return Some(DiffLine::Add(string_of(&rest)));
    }
    if let Some(rest) = after_prefix(line, "-") {
        return Some(DiffLine::Remove(string_of(&rest)));
    }
    if let Some(rest) = after_prefix(line, "+") {
        return Some(DiffLine::Add(string_of(&rest)));
    }
    if let Some(rest) = after_prefix(line, "  ") {
        return Some(DiffLine::Context(string_of(&rest)));
    }
    if let Some(rest) = after_prefix(line, " ") {
        return Some(DiffLine::Context(string_of(&rest)));
    }
    if has_prefix(line, "|") {
        return Some(DiffLine::Context(string_of(line)));
    }
    None
}

/// How far an update has been read.
struct UpdateState {
    hunks: Vec<Hunk>,
    current: Option<Hunk>,
    move_to: Option<String>,
}

impl View for UpdateState {
    type V = UpdateView;

    closed spec fn view(&self) -> UpdateView {
        UpdateView {
            hunks: patch::hunk_views(self.hunks@),
            current: match self.current {
                Some(h) => Some(h@),
                None => None,
            },
            move_to: lists::opt_text(self.move_to),
        }
    }
}

/// The update after one line more.
fn step_update(state: UpdateState, line: &Vec<char>) -> (r: UpdateState)
    ensures
        r@ == update_step(state@, line@),
{
    let UpdateState { mut hunks, current, move_to } = state;
    if let Some(dest) = after_prefix(line, "move_to ") {
        return UpdateState { hunks, current, move_to: Some(string_of(&trimmed(&dest))) };
    }
    let t = trimmed(line);
    if row_is(&t, "*** End of File") {
        if let Some(h) = current {
            hunks.push(h);
        }
        return UpdateState { hunks, current: None, move_to };
    }
    if let Some(rest) = after_prefix(&t, "@@") {
        if let Some(h) = current {
            hunks.push(h);
        }
        let hint = trimmed(&rest);
        let context_hint = if hint.len() == 0 {
            None
        } else {
            Some(string_of(&hint))
        };
        let next = Hunk { context_hint, lines: Vec::new() };
        assert(next@.lines =~= Seq::empty());
        return UpdateState { hunks, current: Some(next), move_to };
    }
    match parse_diff_line(line) {
        Some(d) => {
            let next = match current {
                Some(h) => {
                    let Hunk { context_hint, mut lines } = h;
                    lines.push(d);
                    Hunk { context_hint, lines }
                },
                None => {
                    let mut lines: Vec<DiffLine> = Vec::new();
                    assert(patch::diff_lines(lines@) =~= Seq::empty());
                    lines.push(d);
                    assert(patch::diff_lines(lines@) =~= seq![d@]);
                    Hunk { context_hint: None, lines }
                },
            };
            UpdateState { hunks, current: Some(next), move_to }
        },
        None => UpdateState { hunks, current, move_to },
    }
}

/// The hunks of an update, and where the file moves to.
pub fn parse_update_section(lines: &Vec<Vec<char>>) -> (r: (Vec<Hunk>, Option<String>))
    ensures
        patch::hunk_views(r.0@) == flushed(
            update_upto(lists::rows(lines@), lines@.len() as int),
        ),
        lists::opt_text(r.1) == update_upto(lists::rows(lines@), lines@.len() as int).move_to,
{
    let ghost section = lists::rows(lines@);
    let mut state = UpdateState { hunks: Vec::new(), current: None, move_to: None };
    assert(state@.hunks =~= Seq::empty());
    let mut i: usize = 0;
    while i < lines.len()
        invariant
            0 <= i <= lines@.len(),
            section == lists::rows(lines@),
            state@ == update_upto(section, i as int),
        decreases lines@.len() - i,
    {
        assert(section[i as int] == lines@[i as int]@);
        state = step_update(state, &lines[i]);
        i += 1;
    }
    let UpdateState { mut hunks, current, move_to } = state;
    if let Some(h) = current {
        hunks.push(h);
    }
    (hunks, move_to)
}

/// The operation of a header and the lines under it.
fn parse_operation(line: &Vec<char>, section: &Vec<Vec<char>>) -> (r: Result<FileOp, PatchError>)
    requires
        is_header(line@),
    ensures
        match r {
            Ok(op) => operation(line@, lists::rows(section@)) == Ok::<
                patch::FileOpView,
                error::PatchErrorView,
            >(op@),
            Err(e) => operation(line@, lists::rows(section@)) == Err::<
                patch::FileOpView,
                error::PatchErrorView,
            >(e@),
        },
{
    match header(line) {
        Some((verb, rest)) => {
            let words = split_words(&rest);
            assert(words@.len() == text::words(rest@).len());
            match verb {
                Verb::Create => Ok(
                    FileOp::Add {
                        path: string_of(&trimmed(&rest)),
                        content: parse_add_content(section),
                    },
                ),
                Verb::Write => Ok(
                    FileOp::Write {
                        path: string_of(&trimmed(&rest)),
                        content: parse_add_content(section),
                    },
                ),
                Verb::Delete => Ok(FileOp::Delete { path: string_of(&trimmed(&rest)) }),
                Verb::Update => {
                    let (hunks, move_to) = parse_update_section(section);
                    Ok(FileOp::Update { path: string_of(&trimmed(&rest)), hunks, move_to })
                },
                Verb::Read => {
                    if words.len() == 0 {
                        Err(PatchError::Parse("Missing path in read operation".to_owned()))
                    } else {
                        let s = parse_read_spec(&words);
                        Ok(
                            FileOp::Read {
                                path: s.path,
                                symbols: s.symbols,
                                language: s.language,
                                offset: s.offset,
                                limit: s.limit,
                            },
                        )
                    }
                },
                Verb::MapDir => {
                    if words.len() == 0 {
                        Err(PatchError::Parse("Missing path in map operation".to_owned()))
                    } else {
                        let s = parse_map_spec(&words);
                        Ok(
                            FileOp::MapDir {
                                path: s.path,
                                depth: s.depth,
                                output_limit: s.output_limit,
                            },
                        )
                    }
                },
                Verb::Move => {
                    if words.len() == 2 {
                        Ok(FileOp::Move { from: string_of(&words[0]), to: string_of(&words[1]) })
                    } else {
                        Err(
                            PatchError::Parse(
                                "Move operation needs a source and a destination path".to_owned(),
                            ),
                        )
                    }
                },
            }
        },
        None => Err(PatchError::Parse(String::new())),
    }
}

/// The first header in the rows from `from` on, or their end.
fn header_from(rows: &Vec<Vec<char>>, from: usize) -> (r: usize)
    requires
        from <= rows@.len(),
    ensures
        r == next_header(lists::rows(rows@), from as int),
        from <= r <= rows@.len(),
        r < rows@.len() ==> is_header(rows@[r as int]@),
{
    let ghost lines = lists::rows(rows@);
    let mut i: usize = from;
    while i < rows.len()
        invariant
            from <= i <= rows@.len(),
            lines == lists::rows(rows@),
            next_header(lines, from as int) == next_header(lines, i as int),
        decreases rows@.len() - i,
    {
        assert(lines[i as int] == rows@[i as int]@);
        if header(&rows[i]).is_some() {
            return i;
        }
        i += 1;
    }
    i
}

/// The operations of a body.
fn parse_operations(body: &Vec<Vec<char>>) -> (r: Result<Vec<FileOp>, PatchError>)
    ensures
        match r {
            Ok(ops) => operations(lists::rows(body@), next_header(lists::rows(body@), 0)) == Ok::<
                Seq<patch::FileOpView>,
                error::PatchErrorView,
            >(patch::op_views(ops@)),
            Err(e) => operations(lists::rows(body@), next_header(lists::rows(body@), 0)) == Err::<
                Seq<patch::FileOpView>,
                error::PatchErrorView,
            >(e@),
        },
{
    let ghost lines = lists::rows(body@);
    let ghost whole = operations(lines, next_header(lines, 0));
    let mut ops: Vec<FileOp> = Vec::new();
    let n: usize = body.len();
    let mut at: usize = header_from(body, 0);
    proof {
        if let Ok(rest) = operations(lines, at as int) {
            assert(patch::op_views(ops@) + rest =~= rest);
        }
    }
    while at < n
        invariant
            0 <= at <= n == body@.len(),
            lines == lists::rows(body@),
            whole == operations(lines, next_header(lines, 0)),
            at < n ==> is_header(body@[at as int]@),
            match operations(lines, at as int) {
                Ok(rest) => whole == Ok::<Seq<patch::FileOpView>, error::PatchErrorView>(
                    patch::op_views(ops@) + rest,
                ),
                Err(e) => whole == Err::<Seq<patch::FileOpView>, error::PatchErrorView>(e),
            },
        decreases n - at,
    {
        let next: usize = header_from(body, at + 1);
        let section = slice_rows(body, at + 1, next);
        assert(lines[at as int] == body@[at as int]@);
        match parse_operation(&body[at], &section) {
            Err(e) => {
                return Err(e);
            },
            Ok(op) => {
                let ghost before = patch::op_views(ops@);
                ops.push(op);
                proof {
                    if let Ok(rest) = operations(lines, next as int) {
                        assert(before + (seq![op@] + rest) =~= patch::op_views(ops@) + rest);
                    }
                }
            },
        }
        at = next;
    }
    assert(patch::op_views(ops@) + Seq::empty() =~= patch::op_views(ops@));
    Ok(ops)
}

/// The threshold that the first line of a patch names.
fn parse_threshold_from_begin(line: &Vec<char>) -> (r: Result<Option<Threshold>, PatchError>)
    requires
        is_begin(line@),
    ensures
        match r {
            Ok(t) => {
                &&& begin_threshold(line@) == Ok::<Option<Threshold>, error::PatchErrorView>(t)
                &&& t is Some ==> t->0.wf()
            },
            Err(e) => begin_threshold(line@) == Err::<Option<Threshold>, error::PatchErrorView>(
                e@,
            ),
        },
{
    let t = trimmed(line);
    let rest = match after_prefix(&t, "=== begin") {
        Some(rest) => rest,
        None => Vec::new(),
    };
    let words = split_words(&rest);
    let ghost all = lists::rows(words@);
    let mut i: usize = 0;
    while i < words.len()
        invariant
            0 <= i <= words@.len(),
            all == lists::rows(words@),
            all == text::words(text::trim(line@).skip("=== begin"@.len() as int)),
            threshold_word(all, 0) == threshold_word(all, i as int),
        decreases words@.len() - i,
    {
        assert(all[i as int] == words@[i as int]@);
        if let Some(value) = after_prefix(&words[i], "threshold=") {
            let shown = string_of(&value);
            return match read_threshold(&value) {
                ThresholdText::Valid(t) => Ok(Some(t)),
                ThresholdText::OutOfRange => Err(
                    PatchError::Parse(
                        cat2(
                            "Threshold must be between 0.0 and 1.0, got ",
                            show_number(&value).as_str(),
                        ),
                    ),
                ),
                ThresholdText::Invalid => Err(
                    PatchError::Parse(cat3("Invalid threshold value: '", shown.as_str(), "'")),
                ),
            };
        }
        i += 1;
    }
    Ok(None)
}

/// The first row that begins a patch.
fn find_begin(rows: &Vec<Vec<char>>) -> (r: Option<usize>)
    ensures
        match r {
            Some(k) => begin_index(lists::rows(rows@), 0) == Some(k as int) && k < rows@.len()
                && is_begin(rows@[k as int]@),
            None => begin_index(lists::rows(rows@), 0) is None,
        },
{
    let mut i: usize = 0;
    while i < rows.len()
        invariant
            0 <= i <= rows@.len(),
            begin_index(lists::rows(rows@), 0) == begin_index(lists::rows(rows@), i as int),
        decreases rows@.len() - i,
    {
        assert(lists::rows(rows@)[i as int] == rows@[i as int]@);
        if begins(&rows[i]) {
            return Some(i);
        }
        i += 1;
    }
    None
}

/// The first row that ends a patch.
fn find_end(rows: &Vec<Vec<char>>) -> (r: Option<usize>)
    ensures
        match r {
            Some(k) => end_index(lists::rows(rows@), 0) == Some(k as int) && k < rows@.len(),
            None => end_index(lists::rows(rows@), 0) is None,
        },
{
    let mut i: usize = 0;
    while i < rows.len()
        invariant
            0 <= i <= rows@.len(),
            end_index(lists::rows(rows@), 0) == end_index(lists::rows(rows@), i as int),
        decreases rows@.len() - i,
    {
        assert(lists::rows(rows@)[i as int] == rows@[i as int]@);
        if ends(&rows[i]) {
            return Some(i);
        }
        i += 1;
    }
    None
}

/// Reads the text of a patch.
pub fn parse_patch(input: &str) -> (r: Result<ParseResult, PatchError>)
    ensures
        match r {
            Ok(p) => {
                &&& parsed(input@) == Ok::<ParseView, error::PatchErrorView>(p@)
                &&& p.threshold is Some ==> p.threshold->0.wf()
            },
            Err(e) => parsed(input@) == Err::<ParseView, error::PatchErrorView>(e@),
        },
{
    let rows = split_lines(&wrap(&unify(&chars_of(input))));
    let begin: usize = match find_begin(&rows) {
        Some(k) => k,
        None => {
            return Err(PatchError::Parse("Missing '=== begin' marker".to_owned()));
        },
    };
    let end: usize = match find_end(&rows) {
        Some(k) => k,
        None => {
            return Err(PatchError::Parse("Missing '=== end' marker".to_owned()));
        },
    };
    if end <= begin {
        return Err(PatchError::Parse("'=== end' must come after '=== begin'".to_owned()));
    }
    assert(lists::rows(rows@)[begin as int] == rows@[begin as int]@);
    let threshold = match parse_threshold_from_begin(&rows[begin]) {
        Ok(t) => t,
        Err(e) => {
            return Err(e);
        },
    };
    let body = slice_rows(&rows, begin + 1, end);
    match parse_operations(&body) {
        Ok(ops) => Ok(ParseResult { ops, threshold }),
        Err(e) => Err(e),
    }
}

} // verus!
