//! What holds of the ends of functions, said of the characters of their lines alone.

use vstd::prelude::*;

use crate::functions;
use crate::patterns;
use crate::read_laws;
use crate::reader;
use crate::text;
use crate::text_laws;

verus! {

// ---------------------------------------------------------------------------
// Functions in braces
// ---------------------------------------------------------------------------

/// Whether a line has neither quotes nor backslashes nor slashes.
pub open spec fn bare(line: Seq<char>) -> bool {
    forall|i: int|
        0 <= i < line.len() ==> #[trigger] line[i] != '"' && line[i] != '\'' && line[i] != '\\'
            && line[i] != '/'
}

/// How many more braces a text opens than it closes.
pub open spec fn balance(s: Seq<char>) -> int {
    text_laws::count(s, '{') - text_laws::count(s, '}')
}

/// Whether the character before the place `p` of a line closes the last brace of a function that
/// starts in an earlier line or in this one, `before` being what is between. In the line that it
/// starts in, nothing may be behind.
pub open spec fn closes_at(before: Seq<char>, line: Seq<char>, first: bool, p: int) -> bool {
    &&& 1 <= p <= line.len()
    &&& line[p - 1] == '}'
    &&& balance(before + line.take(p)) == 0
    &&& first ==> functions::nothing_behind(line, p)
}

/// Whether a function is closed in a line.
pub open spec fn closes(before: Seq<char>, line: Seq<char>, first: bool) -> bool {
    exists|p: int| #[trigger] closes_at(before, line, first, p)
}

/// Whether a function that starts in the line `start` is closed in the line `at`.
pub open spec fn closed_in(lines: Seq<Seq<char>>, start: int, at: int) -> bool {
    closes(read_laws::run(lines, start, at - start), lines[at], at == start)
}

/// One character more, balanced.
proof fn lemma_balance_push(s: Seq<char>, c: char)
    ensures
        balance(s.push(c)) == balance(s) + (if c == '{' {
            1int
        } else if c == '}' {
            -1
        } else {
            0
        }),
{
    assert(s.push(c).drop_last() =~= s);
}

/// A line without a slash does not start with one.
proof fn lemma_not_slashed(line: Seq<char>)
    requires
        bare(line),
    ensures
        !text::starts_with(text::trim(line), "/"@),
{
    reveal_strlit("/");
    let t = text::trim(line);
    text_laws::law_trimmed_start(line);
    let u = text::trim_start(line);
    text_laws::law_trimmed_end(u);
    if text::starts_with(t, "/"@) {
        assert(t.take(1)[0] == "/"@[0]);
        assert(t[0] == u.take(t.len() as int)[0]);
        let n = line.len() - u.len();
        assert(line.skip(n)[0] == line[n]);
        assert(line[n] == '/');
    }
}

/// What a reader has come to in a bare line.
proof fn lemma_scan_bare(
    s: functions::Scan,
    before: Seq<char>,
    line: Seq<char>,
    first: bool,
    k: int,
)
    requires
        bare(line),
        0 <= k <= line.len(),
        s.quote is None,
        !s.escaped,
        !s.closed,
        s.depth == balance(before),
    ensures
        ({
            let t = functions::scan_line(s, line, !first, k);
            &&& t.closed <==> exists|p: int|
                p <= k && #[trigger] closes_at(before, line, first, p)
            &&& t.quote is None && !t.escaped && !t.comment
            &&& !t.closed ==> t.depth == balance(before + line.take(k))
        }),
    decreases k,
{
    lemma_not_slashed(line);
    if k > 0 {
        lemma_scan_bare(s, before, line, first, k - 1);
        let t = functions::scan_line(s, line, !first, k - 1);
        let c = line[k - 1];
        assert(c != '"' && c != '\'' && c != '\\' && c != '/');
        let all = before + line.take(k);
        assert(all =~= (before + line.take(k - 1)).push(c));
        lemma_balance_push(before + line.take(k - 1), c);
        let u = functions::scan_line(s, line, !first, k);
        if t.closed {
            let p = choose|p: int| p <= k - 1 && #[trigger] closes_at(before, line, first, p);
            assert(p <= k && closes_at(before, line, first, p));
        } else if u.closed {
            assert(closes_at(before, line, first, k));
        } else {
            assert forall|p: int| p <= k implies !#[trigger] closes_at(
                before,
                line,
                first,
                p,
            ) by {
                if p == k {
                    assert(!closes_at(before, line, first, k));
                } else {
                    assert(p <= k - 1);
                }
            }
        }
    } else {
        assert(before + line.take(0) =~= before);
    }
}

/// Where the lines from a place on are read to.
proof fn lemma_braced_end(lines: Seq<Seq<char>>, start: int, s: functions::Scan, from: int)
    requires
        0 <= start <= from <= lines.len(),
        forall|i: int| start <= i < lines.len() ==> bare(#[trigger] lines[i]),
        s.quote is None,
        !s.escaped,
        !s.closed,
        s.depth == balance(read_laws::run(lines, start, from - start)),
    ensures
        ({
            let end = functions::braced_end(lines, start, s, from);
            &&& from <= end <= lines.len()
            &&& forall|i: int| from <= i < end - 1 ==> !#[trigger] closed_in(lines, start, i)
            &&& end < lines.len() ==> from < end && closed_in(lines, start, end - 1)
        }),
    decreases lines.len() - from,
{
    if from < lines.len() {
        let line = lines[from];
        let before = read_laws::run(lines, start, from - start);
        lemma_scan_bare(s, before, line, from == start, line.len() as int);
        let t = functions::scan_line(s, line, from > start, line.len() as int);
        assert(line.take(line.len() as int) =~= line);
        assert(read_laws::run(lines, start, from + 1 - start) == before + line);
        if t.closed {
            assert(closes(before, line, from == start));
        } else {
            assert(!closed_in(lines, start, from)) by {
                let first = from == start;
                if closes(before, line, first) {
                    let p = choose|p: int| #[trigger] closes_at(before, line, first, p);
                    assert(p <= line.len() && closes_at(before, line, first, p));
                }
            }
            lemma_braced_end(lines, start, t, from + 1);
        }
    }
}

/// A function ends with the first line in which a closing brace makes as many closing as opening
/// braces, counted from the line on that it starts in. In that line itself it ends only where
/// nothing but white space or a comment is behind the brace. Where no line does so, it ends with
/// the text.
pub proof fn law_function_ends_with_its_braces(lines: Seq<Seq<char>>, start: int)
    requires
        0 <= start < lines.len(),
        forall|i: int| start <= i < lines.len() ==> bare(#[trigger] lines[i]),
        !text::starts_with(text::trim_start(lines[start]), "def "@),
    ensures
        ({
            let end = functions::function_end(lines, start);
            &&& start < end <= lines.len()
            &&& forall|i: int| start <= i < end - 1 ==> !#[trigger] closed_in(lines, start, i)
            &&& end < lines.len() ==> closed_in(lines, start, end - 1)
        }),
{
    lemma_braced_end(lines, start, functions::fresh(), start);
    lemma_end_is_behind(lines, start);
}

/// A function has a line at least.
proof fn lemma_end_is_behind(lines: Seq<Seq<char>>, start: int)
    requires
        0 <= start < lines.len(),
    ensures
        functions::braced_end(lines, start, functions::fresh(), start) > start,
{
    let t = functions::scan_line(
        functions::fresh(),
        lines[start],
        false,
        lines[start].len() as int,
    );
    if !t.closed {
        lemma_end_from(lines, start, t, start + 1);
    }
}

/// The end is no sooner than where it is looked for.
proof fn lemma_end_from(lines: Seq<Seq<char>>, start: int, s: functions::Scan, from: int)
    requires
        0 <= from <= lines.len(),
    ensures
        functions::braced_end(lines, start, s, from) >= from,
    decreases lines.len() - from,
{
    if from < lines.len() {
        let t = functions::scan_line(s, lines[from], from > start, lines[from].len() as int);
        if !t.closed {
            lemma_end_from(lines, start, t, from + 1);
        }
    }
}

/// Between quotes no character counts but the quote that ends them and the backslash; what follows
/// a backslash counts for nothing; and behind a slash at the start of a line nothing counts. A
/// brace counts elsewhere.
pub proof fn law_quotes_and_comments(s: functions::Scan, c: char, slashed: bool, ends: bool)
    requires
        !s.closed,
    ensures
        s.comment ==> functions::scan_char(s, c, slashed, ends) == s,
        !s.comment && s.escaped ==> functions::scan_char(s, c, slashed, ends) == (functions::Scan {
            escaped: false,
            ..s
        }),
        !s.comment && !s.escaped && s.quote is Some && c != s.quote->0 && c != '\\'
            ==> functions::scan_char(s, c, slashed, ends) == s,
        !s.comment && !s.escaped && s.quote is Some && c == s.quote->0 && c != '\\'
            ==> functions::scan_char(s, c, slashed, ends) == (functions::Scan { quote: None, ..s }),
        !s.comment && !s.escaped && c == '\\' ==> functions::scan_char(s, c, slashed, ends) == (
        functions::Scan { escaped: true, ..s }),
        !s.comment && !s.escaped && s.quote is None && (c == '"' || c == '\'')
            ==> functions::scan_char(s, c, slashed, ends) == (functions::Scan {
            quote: Some(c),
            ..s
        }),
        !s.comment && !s.escaped && s.quote is None && c == '/' && slashed ==> functions::scan_char(
            s,
            c,
            slashed,
            ends,
        ) == (functions::Scan { comment: true, ..s }),
        !s.comment && !s.escaped && s.quote is None && c == '{' ==> functions::scan_char(
            s,
            c,
            slashed,
            ends,
        ) == (functions::Scan { depth: s.depth + 1, ..s }),
        !s.comment && !s.escaped && s.quote is None && c == '}' ==> functions::scan_char(
            s,
            c,
            slashed,
            ends,
        ) == (functions::Scan { depth: s.depth - 1, closed: s.depth == 1 && ends, ..s }),
        !s.comment && !s.escaped && s.quote is None && c != '{' && c != '}' && c != '\\' && c != '"'
            && c != '\'' && !(c == '/' && slashed) ==> functions::scan_char(s, c, slashed, ends)
            == s,
{
}

// ---------------------------------------------------------------------------
// Functions by their indent
// ---------------------------------------------------------------------------

/// Whether a line belongs to a function that is indented so much: it is blank, a comment, indented
/// more, or another branch of what the function ends with.
pub open spec fn belongs(line: Seq<char>, indent: int) -> bool {
    let t = text::trim(line);
    ||| text_laws::blank(line)
    ||| text::starts_with(t, "#"@)
    ||| reader::indent(line) > indent
    ||| text::starts_with(t, "else"@)
    ||| text::starts_with(t, "elif"@)
    ||| text::starts_with(t, "except"@)
    ||| text::starts_with(t, "finally"@)
}

/// Where an indented block ends.
proof fn lemma_indented_end(lines: Seq<Seq<char>>, indent: int, from: int)
    requires
        0 <= from <= lines.len(),
    ensures
        ({
            let end = functions::indented_end(lines, indent, from);
            &&& from <= end <= lines.len()
            &&& forall|i: int| from <= i < end ==> belongs(#[trigger] lines[i], indent)
            &&& end < lines.len() ==> !belongs(lines[end], indent)
        }),
    decreases lines.len() - from,
{
    if from < lines.len() {
        read_laws::lemma_blank(lines[from]);
        if functions::goes_on(lines[from], indent) {
            lemma_indented_end(lines, indent, from + 1);
        }
    }
}

/// A function of a language of indented blocks ends before the first line behind its own that does
/// not belong to it.
pub proof fn law_function_ends_with_its_indent(lines: Seq<Seq<char>>, start: int)
    requires
        0 <= start < lines.len(),
        text::starts_with(text::trim_start(lines[start]), "def "@),
    ensures
        ({
            let end = functions::function_end(lines, start);
            let indent = reader::indent(lines[start]);
            &&& start < end <= lines.len()
            &&& forall|i: int| start < i < end ==> belongs(#[trigger] lines[i], indent)
            &&& end < lines.len() ==> !belongs(lines[end], indent)
        }),
{
    lemma_indented_end(lines, reader::indent(lines[start]), start + 1);
}

/// The lines that open a function: those of a name behind `fn`, `function`, `class` or `def`, and
/// those that give a name to a function without one.
pub proof fn law_function_patterns()
    ensures
        ({
            let list = functions::function_patterns();
            &&& list.len() == 6
            &&& list.contains("^\\s*(?:pub\\s+)?(?:async\\s+)?fn\\s+(\\w+)"@)
            &&& list.contains("^\\s*function\\s+(\\w+)"@)
            &&& list.contains("^\\s*(?:export\\s+)?(?:async\\s+)?function\\s+(\\w+)"@)
            &&& list.contains("^\\s*(?:const|let|var)\\s+(\\w+)\\s*=\\s*(?:async\\s*)?\\("@)
            &&& list.contains("^\\s*(?:pub\\s+)?class\\s+(\\w+)"@)
            &&& list.contains("^\\s*def\\s+(\\w+)"@)
        }),
{
    let list = functions::function_patterns();
    assert(list[0] == "^\\s*(?:pub\\s+)?(?:async\\s+)?fn\\s+(\\w+)"@);
    assert(list[1] == "^\\s*function\\s+(\\w+)"@);
    assert(list[2] == "^\\s*(?:export\\s+)?(?:async\\s+)?function\\s+(\\w+)"@);
    assert(list[3] == "^\\s*(?:const|let|var)\\s+(\\w+)\\s*=\\s*(?:async\\s*)?\\("@);
    assert(list[4] == "^\\s*(?:pub\\s+)?class\\s+(\\w+)"@);
    assert(list[5] == "^\\s*def\\s+(\\w+)"@);
}

/// The names that are looked for: in each line, what the first group of each pattern finds there.
pub proof fn law_names_are_looked_for(lines: Seq<Seq<char>>, p: int, k: int)
    requires
        0 <= p < functions::function_patterns().len(),
        0 <= k < lines.len(),
        patterns::compiles(functions::function_patterns()[p]),
    ensures
        functions::names_found(lines)[p].len() == lines.len(),
        functions::names_found(lines)[p][k] == patterns::first_group(
            functions::function_patterns()[p],
            lines[k],
        ),
        functions::names_found(lines).len() == functions::function_patterns().len(),
{
}

/// What may be behind the brace that closes a function in the line that it starts in.
pub proof fn law_nothing_behind(a: Seq<char>, sp: Seq<char>, rest: Seq<char>)
    requires
        text_laws::blank(sp),
        rest.len() == 0 || (!text::is_space(rest[0]) && !text::is_space(rest.last())),
    ensures
        functions::nothing_behind(a + (sp + rest), a.len() as int) <==> (rest.len() == 0 || (
        rest.len() >= 2 && rest[0] == '/' && (rest[1] == '/' || rest[1] == '*'))),
{
    reveal_strlit("//");
    reveal_strlit("/*");
    assert("//"@ =~= seq!['/', '/']);
    assert("/*"@ =~= seq!['/', '*']);
    let line = a + (sp + rest);
    assert(line.skip(a.len() as int) =~= sp + rest);
    let none = Seq::<char>::empty();
    text_laws::law_trimmed(sp, rest, none);
    assert(sp + rest + none =~= sp + rest);
    if rest.len() >= 2 && rest[0] == '/' {
        if rest[1] == '/' {
            assert(rest.take(2) =~= "//"@);
        } else if rest[1] == '*' {
            assert(rest.take(2) =~= "/*"@);
        }
    }
    if text::starts_with(rest, "//"@) {
        assert(rest.take(2)[0] == '/' && rest.take(2)[1] == '/');
    }
    if text::starts_with(rest, "/*"@) {
        assert(rest.take(2)[0] == '/' && rest.take(2)[1] == '*');
    }
}

/// A line that starts with a slash is a comment: it changes nothing for a reader outside of quotes.
pub proof fn law_comment_lines(s: functions::Scan, sp: Seq<char>, rest: Seq<char>, later: bool)
    requires
        text_laws::blank(sp),
        s.quote is None,
        !s.escaped,
        !s.closed,
        rest.len() == 0 || !text::is_space(rest.last()),
    ensures
        ({
            let line = sp + (seq!['/'] + rest);
            functions::scan_line(s, line, later, line.len() as int) == (functions::Scan {
                comment: true,
                ..s
            })
        }),
{
    reveal_strlit("/");
    assert("/"@ =~= seq!['/']);
    let text = seq!['/'] + rest;
    let line = sp + text;
    let none = Seq::<char>::empty();
    text_laws::law_trimmed(sp, text, none);
    assert(sp + text + none =~= line);
    text_laws::law_ends("/"@, rest);
    assert(line.take(sp.len() as int) =~= sp);
    lemma_comment(s, sp, line, later, line.len() as int);
}

/// A comment, character by character.
proof fn lemma_comment(
    s: functions::Scan,
    sp: Seq<char>,
    line: Seq<char>,
    later: bool,
    k: int,
)
    requires
        text_laws::blank(sp),
        sp.len() < line.len(),
        line.take(sp.len() as int) == sp,
        line[sp.len() as int] == '/',
        text::starts_with(text::trim(line), "/"@),
        s.quote is None,
        !s.escaped,
        !s.closed,
        0 <= k <= line.len(),
    ensures
        functions::scan_line(s, line, later, k) == (functions::Scan {
            comment: k > sp.len(),
            ..s
        }),
    decreases k,
{
    if k > 0 {
        lemma_comment(s, sp, line, later, k - 1);
        if k - 1 < sp.len() {
            assert(line.take(sp.len() as int)[k - 1] == line[k - 1]);
            assert(text::is_space(sp[k - 1]));
        }
    }
}

/// A reader goes from character to character and from line to line: what it has come to in one line
/// it goes on with in the next, but for a comment, until the block is closed.
pub proof fn law_reading_goes_on(
    lines: Seq<Seq<char>>,
    start: int,
    s: functions::Scan,
    from: int,
    k: int,
)
    requires
        0 <= start <= from < lines.len(),
        0 <= k < lines[from].len(),
    ensures
        ({
            let line = lines[from];
            let t = functions::scan_line(s, line, from > start, line.len() as int);
            let end = functions::braced_end(lines, start, s, from);
            &&& t.closed ==> end == from + 1
            &&& !t.closed ==> end == functions::braced_end(lines, start, t, from + 1)
            &&& functions::scan_line(s, line, from > start, 0) == (functions::Scan {
                comment: false,
                ..s
            })
            &&& functions::scan_line(s, line, from > start, k + 1) == functions::scan_char(
                functions::scan_line(s, line, from > start, k),
                line[k],
                text::trim(line).len() > 0 && text::trim(line)[0] == '/',
                from > start || functions::nothing_behind(line, k + 1),
            )
        }),
{
    reveal_strlit("/");
    let t = text::trim(lines[from]);
    if t.len() > 0 && t[0] == '/' {
        assert(t.take(1) =~= "/"@);
    }
    if text::starts_with(t, "/"@) {
        assert(t.take(1)[0] == '/');
    }
}

/// A function that does not start like those of indented blocks is read in braces from the line on
/// that it starts in, by a reader that has come across nothing yet.
pub proof fn law_function_is_read(lines: Seq<Seq<char>>, start: int)
    requires
        0 <= start < lines.len(),
        !text::starts_with(text::trim_start(lines[start]), "def "@),
    ensures
        functions::function_end(lines, start) == functions::braced_end(
            lines,
            start,
            (functions::Scan {
                depth: 0,
                quote: None,
                escaped: false,
                comment: false,
                closed: false,
            }),
            start,
        ),
{
}

} // verus!
