//! What holds of hints, checks, requests and the paths that a request touches.

use vstd::prelude::*;

use crate::error;
use crate::hints;
use crate::hunks;
use crate::matching;
use crate::numbers;
use crate::outcome;
use crate::parser;
use crate::patch;
use crate::paths;
use crate::report;
use crate::server;
use crate::similarity::Threshold;
use crate::text;
use crate::text_laws;
use crate::validator;
use crate::workspace;

verus! {

// ---------------------------------------------------------------------------
// Hints
// ---------------------------------------------------------------------------

/// Whether lines stand at a place, but for white space at their ends.
pub open spec fn lines_at(file: Seq<Seq<char>>, pattern: Seq<Seq<char>>, at: int) -> bool {
    &&& 0 <= at
    &&& at + pattern.len() <= file.len()
    &&& forall|i: int|
        0 <= i < pattern.len() ==> text::trim_end(#[trigger] file[at + i]) == text::trim_end(
            pattern[i],
        )
}

/// Whether lines stand at a place near a line: in a window of sixty lines round it, or of a fifth of
/// the lines of a long file.
pub open spec fn lines_near(
    file: Seq<Seq<char>>,
    pattern: Seq<Seq<char>>,
    line: int,
    at: int,
) -> bool {
    let n = file.len() as int;
    let size = if n / 5 > 60 {
        n / 5
    } else {
        60
    };
    let start = if line < size / 2 {
        0
    } else {
        line - size / 2
    };
    let end = if start + size < n {
        start + size
    } else {
        n
    };
    &&& start <= at
    &&& at + pattern.len() <= end
    &&& lines_at(file, pattern, at)
}

/// The places in a window.
proof fn lemma_window(file: Seq<Seq<char>>, pattern: Seq<Seq<char>>, line: int, at: int)
    requires
        0 <= line < file.len() <= usize::MAX,
        pattern.len() > 0,
    ensures
        ({
            let n = file.len() as int;
            let start = hints::window_start(n, line);
            let places = matching::exact_places(
                file.subrange(start, hints::window_end(n, line)),
                pattern,
            );
            lines_near(file, pattern, line, at) <==> exists|i: int|
                0 <= i < places.len() && #[trigger] places[i] + start == at
        }),
{
    let n = file.len() as int;
    let start = hints::window_start(n, line);
    let end = hints::window_end(n, line);
    let window = file.subrange(start, end);
    let (w, p) = (matching::trimmed_lines(window), matching::trimmed_lines(pattern));
    matching::law_places_are_complete(w, p, window.len() as int + 1);
    let places = matching::exact_places(window, pattern);
    let k = at - start;
    assert(lines_near(file, pattern, line, at) == matching::holds_lines(w, p, k)) by {
        if lines_near(file, pattern, line, at) {
            assert forall|i: int| 0 <= i < p.len() implies w[k + i] == p[i] by {
                assert(file[at + i] == window[k + i]);
            }
            assert(w.subrange(k, k + p.len()) =~= p);
        }
        if matching::holds_lines(w, p, k) {
            assert forall|i: int| 0 <= i < pattern.len() implies text::trim_end(
                #[trigger] file[at + i],
            ) == text::trim_end(pattern[i]) by {
                assert(w.subrange(k, k + p.len())[i] == p[i]);
                assert(file[at + i] == window[k + i]);
            }
        }
    }
    if matching::holds_lines(w, p, k) {
        assert(places.contains(k as usize));
        let i = choose|i: int| 0 <= i < places.len() && places[i] == k as usize;
        assert(places[i] + start == at);
    }
    if exists|i: int| 0 <= i < places.len() && #[trigger] places[i] + start == at {
        let i = choose|i: int| 0 <= i < places.len() && #[trigger] places[i] + start == at;
        assert(matching::holds_lines(w, p, places[i] as int));
    }
}

/// The first place that is not before a line.
proof fn lemma_first_not_before(places: Seq<usize>, at: int, k: int)
    requires
        0 <= k <= places.len(),
        forall|i: int, j: int| 0 <= i < j < places.len() ==> places[i] < places[j],
    ensures
        match hints::first_not_before(places, at, k) {
            Some(p) => at <= p && (exists|i: int| k <= i < places.len() && #[trigger] places[i] == p)
                && forall|i: int|
                k <= i < places.len() && at <= #[trigger] places[i] ==> p <= places[i],
            None => forall|i: int| k <= i < places.len() ==> #[trigger] places[i] < at,
        },
    decreases places.len() - k,
{
    if k < places.len() {
        if places[k] >= at {
            assert(places[k] == places[k] as int);
        } else {
            lemma_first_not_before(places, at, k + 1);
        }
    }
}

/// Near a line, lines are looked for from it on first: they are found at the first place that is not
/// before it, or, where there is none, at the last one before it.
pub proof fn law_lines_near_a_hint(
    file: Seq<Seq<char>>,
    pattern: Seq<Seq<char>>,
    line: int,
)
    requires
        0 <= line < file.len() <= usize::MAX,
        pattern.len() > 0,
    ensures
        match hints::place_in_window(file, pattern, line) {
            None => forall|at: int| !lines_near(file, pattern, line, at),
            Some(p) => lines_near(file, pattern, line, p) && (if p >= line {
                forall|at: int|
                    line <= at < p ==> !#[trigger] lines_near(file, pattern, line, at)
            } else {
                forall|at: int| p < at ==> !#[trigger] lines_near(file, pattern, line, at)
            }),
        },
{
    let n = file.len() as int;
    let start = hints::window_start(n, line);
    let window = file.subrange(start, hints::window_end(n, line));
    let places = matching::exact_places(window, pattern);
    let (w, q) = (matching::trimmed_lines(window), matching::trimmed_lines(pattern));
    matching::law_places_are_complete(w, q, window.len() as int + 1);
    lemma_first_not_before(places, line - start, 0);
    assert forall|at: int| #[trigger] lines_near(file, pattern, line, at) <==> exists|i: int|
        0 <= i < places.len() && #[trigger] places[i] + start == at by {
        lemma_window(file, pattern, line, at);
    }
    if places.len() > 0 {
        match hints::first_not_before(places, line - start, 0) {
            Some(p) => {
                let i = choose|i: int| 0 <= i < places.len() && #[trigger] places[i] == p;
                assert(places[i] + start == start + p);
                assert(lines_near(file, pattern, line, start + p));
                assert forall|at: int| line <= at < start + p implies !#[trigger] lines_near(
                    file,
                    pattern,
                    line,
                    at,
                ) by {
                    if lines_near(file, pattern, line, at) {
                        let j = choose|j: int|
                            0 <= j < places.len() && #[trigger] places[j] + start == at;
                        assert(p <= places[j]);
                    }
                }
            },
            None => {
                let last = places.len() - 1;
                assert(places[last] + start == start + places.last());
                assert(lines_near(file, pattern, line, start + places.last()));
                assert forall|at: int| start + places.last() < at implies !#[trigger] lines_near(
                    file,
                    pattern,
                    line,
                    at,
                ) by {
                    if lines_near(file, pattern, line, at) {
                        let j = choose|j: int|
                            0 <= j < places.len() && #[trigger] places[j] + start == at;
                        if j < last {
                            assert(places[j] < places[last]);
                        }
                    }
                }
            },
        }
    }
}

/// The first line with a hint.
proof fn lemma_hint_at(
    lines: Seq<Seq<char>>,
    hint: Seq<char>,
    boundary: bool,
    from: int,
    line: int,
)
    requires
        0 <= from <= line <= lines.len(),
        forall|j: int| from <= j < line ==> !hints::has_hint(#[trigger] lines[j], hint, boundary),
        line < lines.len() ==> hints::has_hint(lines[line], hint, boundary),
    ensures
        hints::hint_line(lines, hint, boundary, from) == (if line < lines.len() {
            Some(line)
        } else {
            None
        }),
    decreases line - from,
{
    if from < line {
        lemma_hint_at(lines, hint, boundary, from + 1, line);
    }
}

/// Whether a line is the first that has a hint, or the end of the lines where none has.
pub open spec fn first_with(
    lines: Seq<Seq<char>>,
    hint: Seq<char>,
    boundary: bool,
    line: int,
) -> bool {
    &&& 0 <= line <= lines.len()
    &&& forall|j: int| 0 <= j < line ==> !hints::has_hint(#[trigger] lines[j], hint, boundary)
    &&& line < lines.len() ==> hints::has_hint(lines[line], hint, boundary)
}

/// Where a hint leads: to the first line that has it, else to the first that has it in lower case,
/// else nowhere. A hint that ends with a dollar sign must end a word.
pub proof fn law_hinted_line(
    file: Seq<Seq<char>>,
    pattern: Seq<Seq<char>>,
    hint: Seq<char>,
    boundary: bool,
    line: int,
    low: int,
)
    requires
        !boundary ==> hint.len() == 0 || hint.last() != '$',
        first_with(file, hint, boundary, line),
        first_with(
            Seq::new(file.len(), |i: int| hints::lowercase(file[i])),
            hints::lowercase(hint),
            boundary,
            low,
        ),
    ensures
        ({
            let given = if boundary {
                hint + seq!['$']
            } else {
                hint
            };
            let place = hints::place_by_hint(file, pattern, given);
            &&& line < file.len() ==> place == hints::place_in_window(file, pattern, line)
            &&& line == file.len() && low < file.len() ==> place == hints::place_in_window(
                file,
                pattern,
                low,
            )
            &&& line == file.len() && low == file.len() ==> place is None
        }),
{
    let lowered = Seq::new(file.len(), |i: int| hints::lowercase(file[i]));
    assert(hints::lowered(file) =~= lowered);
    lemma_hint_at(file, hint, boundary, 0, line);
    lemma_hint_at(lowered, hints::lowercase(hint), boundary, 0, low);
    let h = hint + seq!['$'];
    assert(h.drop_last() =~= hint);
    assert(h.last() == '$');
}

/// How far a line is from lines at a place: not at all where it is one of them or right behind them,
/// else as many lines as are between.
pub proof fn law_hint_distance(place: int, len: int, line: int)
    requires
        len > 0,
    ensures
        place <= line <= place + len ==> hints::hint_distance(place, len, line) == 0,
        line < place ==> hints::hint_distance(place, len, line) == place - line,
        line > place + len ==> hints::hint_distance(place, len, line) == line - place - len,
{
}

/// A place, weighed against one line with the hint.
proof fn lemma_one_hint(
    file: Seq<Seq<char>>,
    hint: Seq<char>,
    place: int,
    len: int,
    best: Option<(int, int)>,
    line: int,
    upto: int,
)
    requires
        0 <= line < file.len(),
        0 <= upto <= file.len(),
        forall|j: int|
            0 <= j < file.len() ==> (text::contains(#[trigger] file[j], hint) <==> j == line),
    ensures
        hints::choice_for_place(file, hint, false, place, len, best, upto) == (if line < upto {
            hints::better_choice(best, place, len, line)
        } else {
            best
        }),
    decreases upto,
{
    if upto > 0 {
        lemma_one_hint(file, hint, place, len, best, line, upto - 1);
        assert(text::contains(file[upto - 1], hint) <==> upto - 1 == line);
    }
}

/// Of two places the one that is nearer to the line with the hint is picked; of two that are equally
/// near, the one that is not before it.
pub proof fn law_hint_between_places(
    file: Seq<Seq<char>>,
    hint: Seq<char>,
    line: int,
    a: usize,
    b: usize,
    len: int,
)
    requires
        0 <= line < file.len(),
        forall|j: int|
            0 <= j < file.len() ==> (text::contains(#[trigger] file[j], hint) <==> j == line),
        hint.len() == 0 || hint.last() != '$',
        len > 0,
        a + len <= line <= b,
    ensures
        line - a - len < b - line ==> hints::picked(file, hint, seq![a, b], len) == Some(a as int),
        line - a - len >= b - line ==> hints::picked(file, hint, seq![a, b], len) == Some(
            b as int,
        ),
{
    let n = file.len() as int;
    let places = seq![a, b];
    assert(hints::hint_parts(hint) == (hint, false));
    reveal_with_fuel(hints::choice_among, 3);
    lemma_one_hint(file, hint, a as int, len, None, line, n);
    let first = hints::choice_among(file, hint, false, places, len, 1);
    lemma_one_hint(file, hint, b as int, len, first, line, n);
}

// ---------------------------------------------------------------------------
// Checks
// ---------------------------------------------------------------------------

/// Whether a check runs a program with arguments.
pub open spec fn runs(
    c: Option<validator::CheckView>,
    program: Seq<char>,
    args: Seq<Seq<char>>,
    ext: Seq<char>,
) -> bool {
    c matches Some(v) && v.program == program && v.args == args && v.extension == ext
}

/// The extensions, as characters.
proof fn lemma_extensions()
    ensures
        "rs"@ == seq!['r', 's'],
        "tf"@ == seq!['t', 'f'],
        "hcl"@ == seq!['h', 'c', 'l'],
        "py"@ == seq!['p', 'y'],
        "json"@ == seq!['j', 's', 'o', 'n'],
        "js"@ == seq!['j', 's'],
        "jsx"@ == seq!['j', 's', 'x'],
        "go"@ == seq!['g', 'o'],
        "sh"@ == seq!['s', 'h'],
        "bash"@ == seq!['b', 'a', 's', 'h'],
{
    reveal_strlit("rs");
    reveal_strlit("tf");
    reveal_strlit("hcl");
    reveal_strlit("py");
    reveal_strlit("json");
    reveal_strlit("js");
    reveal_strlit("jsx");
    reveal_strlit("go");
    reveal_strlit("sh");
    reveal_strlit("bash");
    assert("rs"@ =~= seq!['r', 's']);
    assert("tf"@ =~= seq!['t', 'f']);
    assert("hcl"@ =~= seq!['h', 'c', 'l']);
    assert("py"@ =~= seq!['p', 'y']);
    assert("json"@ =~= seq!['j', 's', 'o', 'n']);
    assert("js"@ =~= seq!['j', 's']);
    assert("jsx"@ =~= seq!['j', 's', 'x']);
    assert("go"@ =~= seq!['g', 'o']);
    assert("sh"@ =~= seq!['s', 'h']);
    assert("bash"@ =~= seq!['b', 'a', 's', 'h']);
}

/// Which program checks a file, by its extension; one checks by what it prints, the others by how
/// they end. Files with another extension are not checked.
pub proof fn law_checks(path: Seq<char>, ext: Seq<char>)
    ensures
        runs(validator::check_for("rs"@, path), "rustfmt"@, seq!["--check"@, path], "rs"@),
        runs(
            validator::check_for("tf"@, path),
            "terraform"@,
            seq!["fmt"@, "-check"@, path],
            "tf"@,
        ),
        runs(
            validator::check_for("hcl"@, path),
            "terraform"@,
            seq!["fmt"@, "-check"@, path],
            "hcl"@,
        ),
        runs(validator::check_for("py"@, path), "python"@, seq!["-m"@, "py_compile"@, path], "py"@),
        runs(
            validator::check_for("json"@, path),
            "python3"@,
            seq!["-m"@, "json.tool"@, path],
            "json"@,
        ),
        runs(validator::check_for("js"@, path), "node"@, seq!["--check"@, path], "js"@),
        runs(validator::check_for("jsx"@, path), "node"@, seq!["--check"@, path], "jsx"@),
        runs(validator::check_for("go"@, path), "gofmt"@, seq!["-l"@, path], "go"@),
        runs(validator::check_for("sh"@, path), "bash"@, seq!["-n"@, path], "sh"@),
        runs(validator::check_for("bash"@, path), "bash"@, seq!["-n"@, path], "bash"@),
        validator::check_for(ext, path) matches Some(c) ==> (c.mode is NonEmptyStdout <==> ext
            == "go"@),
        ext.len() < 2 || ext.len() > 4 ==> validator::check_for(ext, path) is None,
{
    lemma_extensions();
    assert("rs"@[0] == 'r' && "tf"@[0] == 't' && "hcl"@[0] == 'h' && "py"@[0] == 'p' && "json"@.len()
        == 4 && "js"@.len() == 2 && "jsx"@.len() == 3 && "go"@[0] == 'g' && "sh"@[0] == 's'
        && "bash"@[0] == 'b' && "js"@[0] == 'j' && "json"@[0] == 'j' && "jsx"@[0] == 'j');
}

/// What a check advises. A program that is not there, cannot be run or takes too long is said to be
/// so, and is no issue. One that ends well advises nothing; one that does not is quoted: what it
/// says of its errors, else what else it says, else how it ended.
pub proof fn law_advice(
    c: validator::CheckView,
    m: Seq<char>,
    status: Seq<char>,
    out: Seq<char>,
    err: Seq<char>,
)
    requires
        c.mode is ExitCode,
    ensures
        validator::advice(c, validator::RunView::NotFound) == seq![
            "Advisory: "@ + c.program + " not found — skipping "@ + c.extension + " syntax check"@,
        ],
        validator::advice(c, validator::RunView::Failed(m)) == seq![
            "validator '"@ + c.program + "' failed: "@ + m,
        ],
        validator::advice(c, validator::RunView::TimedOut) == seq![
            "validator '"@ + c.program + "' timed out after 2s"@,
        ],
        !validator::issue(c, validator::RunView::NotFound),
        !validator::issue(c, validator::RunView::Failed(m)),
        !validator::issue(c, validator::RunView::TimedOut),
        ({
            let well = validator::RunView::Finished {
                success: true,
                status,
                stdout: out,
                stderr: err,
            };
            let ill = validator::RunView::Finished {
                success: false,
                status,
                stdout: out,
                stderr: err,
            };
            &&& validator::advice(c, well).len() == 0 && !validator::issue(c, well)
            &&& validator::issue(c, ill)
            &&& text::trim(err).len() > 0 ==> validator::advice(c, ill) == seq![
                "Advisory ("@ + c.program + "): "@ + text::trim(err),
            ]
            &&& text::trim(err).len() == 0 && text::trim(out).len() > 0 ==> validator::advice(
                c,
                ill,
            ) == seq!["Advisory ("@ + c.program + "): "@ + text::trim(out)]
            &&& text::trim(err).len() == 0 && text::trim(out).len() == 0 ==> validator::advice(
                c,
                ill,
            ) == seq!["Advisory ("@ + c.program + "): "@ + ("exit code "@ + status)]
        }),
{
}

/// The check that goes by what a program prints: it advises to format a file where anything but
/// white space is printed.
pub proof fn law_advice_by_output(
    c: validator::CheckView,
    success: bool,
    status: Seq<char>,
    out: Seq<char>,
    err: Seq<char>,
    i: int,
)
    requires
        c.mode is NonEmptyStdout,
    ensures
        ({
            let run = validator::RunView::Finished { success, status, stdout: out, stderr: err };
            &&& 0 <= i < out.len() && !text::is_space(out[i]) ==> validator::issue(c, run)
                && validator::advice(c, run) == seq!["Advisory (gofmt): file needs formatting"@]
            &&& out.len() == 0 && success ==> !validator::issue(c, run) && validator::advice(
                c,
                run,
            ).len() == 0
            &&& out.len() == 0 && !success && text::trim(err).len() > 0 ==> validator::issue(c, run)
                && validator::advice(c, run) == seq![
                "Advisory ("@ + c.program + "): "@ + text::trim(err),
            ]
        }),
{
    if 0 <= i < out.len() && !text::is_space(out[i]) {
        assert(!validator::ascii_blank(out)) by {
            if validator::ascii_blank(out) {
                assert(out[i] == ' ' || out[i] == '\t' || out[i] == '\n' || out[i] == '\r' || out[i]
                    == '\u{c}');
            }
        }
    }
}

// ---------------------------------------------------------------------------
// Requests
// ---------------------------------------------------------------------------

/// A request says what its text says. The threshold that the text names counts for more than the one
/// that comes with it. A request without a text, or with one that cannot be read, is refused.
pub proof fn law_request(t: Seq<char>, threshold: Option<Threshold>)
    ensures
        t.len() == 0 ==> server::requested(t, threshold) == Err::<server::RequestView, Seq<char>>(
            "patch is required. Wrap operations in === begin / === end."@,
        ),
        t.len() > 0 ==> match parser::parsed(t) {
            Ok(p) => server::requested(t, threshold) matches Ok(r) && r.ops == p.ops && (
            p.threshold is Some ==> r.threshold == p.threshold) && (p.threshold is None
                ==> r.threshold == threshold),
            Err(e) => server::requested(t, threshold) == Err::<
                server::RequestView,
                Seq<char>,
            >("Parse error: "@ + error::error_message(e)),
        },
{
}

/// Whether a path is among those that are looked at, and how deep.
pub open spec fn looked_at(
    list: Seq<server::PlaceView>,
    base: Seq<char>,
    home: Option<Seq<char>>,
    path: Seq<char>,
    depth: Option<usize>,
) -> bool {
    list.contains(server::PlaceView { path: paths::resolved(base, home, path).0, depth })
}

/// Every path that an operation names is looked at before it is carried out; a directory that is
/// mapped as deep as is asked for, or three levels.
pub proof fn law_paths_of_operation(
    base: Seq<char>,
    home: Option<Seq<char>>,
    ops: Seq<patch::FileOpView>,
    k: int,
    i: int,
)
    requires
        0 <= i < k <= ops.len(),
    ensures
        ({
            let list = server::places_upto(base, home, ops, k);
            match ops[i] {
                patch::FileOpView::Add { path, .. } => looked_at(list, base, home, path, None),
                patch::FileOpView::Write { path, .. } => looked_at(list, base, home, path, None),
                patch::FileOpView::Delete { path } => looked_at(list, base, home, path, None),
                patch::FileOpView::Read { path, .. } => looked_at(list, base, home, path, None),
                patch::FileOpView::Update { path, move_to, .. } => looked_at(
                    list,
                    base,
                    home,
                    path,
                    None,
                ) && (move_to is Some ==> looked_at(list, base, home, move_to->0, None)),
                patch::FileOpView::Move { from, to } => looked_at(list, base, home, from, None)
                    && looked_at(list, base, home, to, None),
                patch::FileOpView::MapDir { path, depth, .. } => looked_at(
                    list,
                    base,
                    home,
                    path,
                    Some(
                        if depth is Some {
                            depth->0
                        } else {
                            3
                        },
                    ),
                ),
            }
        }),
    decreases k,
{
    let before = server::places_upto(base, home, ops, k - 1);
    let here = server::op_places(base, home, ops[k - 1]);
    let list = before + here;
    if i < k - 1 {
        law_paths_of_operation(base, home, ops, k - 1, i);
        assert forall|p: server::PlaceView| before.contains(p) implies list.contains(p) by {
            let j = choose|j: int| 0 <= j < before.len() && before[j] == p;
            assert(list[j] == p);
        }
    } else {
        assert forall|j: int| 0 <= j < here.len() implies list.contains(#[trigger] here[j]) by {
            assert(list[before.len() + j] == here[j]);
        }
        assert(here.len() > 0);
        assert(list.contains(here[0]));
        if here.len() > 1 {
            assert(list.contains(here[1]));
        }
    }
}

/// Advice on a file goes to the last operation that wrote it, and to no other.
pub proof fn law_advice_goes_to_the_last(
    s: workspace::SessionView,
    ops: Seq<patch::FileOpView>,
    results: Seq<outcome::OpResultView>,
    target: Seq<char>,
    warnings: Seq<Seq<char>>,
    issue: bool,
    i: int,
)
    requires
        results.len() == ops.len(),
        0 <= i < ops.len(),
    ensures
        ({
            let after = server::advised(s, ops, results, target, warnings, issue);
            let last = server::wrote(s, ops[i], results[i], target) && forall|j: int|
                i < j < ops.len() ==> !server::wrote(s, #[trigger] ops[j], results[j], target);
            &&& last ==> after[i].warnings == warnings && (issue ==> after[i].status
                is ValidationWarning) && (!issue ==> after[i].status == results[i].status)
            &&& !last ==> after[i] == results[i]
        }),
{
    lemma_last_writer(s, ops, results, target, ops.len() as int);
}

/// The last operation that wrote a file.
proof fn lemma_last_writer(
    s: workspace::SessionView,
    ops: Seq<patch::FileOpView>,
    results: Seq<outcome::OpResultView>,
    target: Seq<char>,
    k: int,
)
    requires
        0 <= k <= ops.len(),
    ensures
        match server::last_writer(s, ops, results, target, k) {
            Some(i) => 0 <= i < k && server::wrote(s, ops[i], results[i], target) && forall|j: int|
                i < j < k ==> !server::wrote(s, #[trigger] ops[j], results[j], target),
            None => forall|j: int|
                0 <= j < k ==> !server::wrote(s, #[trigger] ops[j], results[j], target),
        },
    decreases k,
{
    if k > 0 {
        lemma_last_writer(s, ops, results, target, k - 1);
    }
}

/// Which operations write a file: those that create, write or update one that went well; one that
/// is updated and moved is written where it goes.
pub proof fn law_writers(
    s: workspace::SessionView,
    r: outcome::OpResultView,
    path: Seq<char>,
    dest: Seq<char>,
    content: Seq<char>,
    list: Seq<patch::HunkView>,
)
    requires
        r.status is Success,
    ensures
        server::wrote(
            s,
            patch::FileOpView::Add { path, content },
            r,
            workspace::full_path(s, path),
        ),
        server::wrote(
            s,
            patch::FileOpView::Write { path, content },
            r,
            workspace::full_path(s, path),
        ),
        server::wrote(
            s,
            patch::FileOpView::Update { path, hunks: list, move_to: None },
            r,
            workspace::full_path(s, path),
        ),
        server::wrote(
            s,
            patch::FileOpView::Update { path, hunks: list, move_to: Some(dest) },
            r,
            workspace::full_path(s, dest),
        ),
        !server::wrote(
            s,
            patch::FileOpView::Delete { path },
            r,
            workspace::full_path(s, path),
        ),
{
}

// ---------------------------------------------------------------------------
// What is said of several hunks
// ---------------------------------------------------------------------------

/// A text is parted at each separator in turn.
pub proof fn law_parts(first: Seq<char>, rest: Seq<char>)
    requires
        !text::contains(first, "; "@),
        first.len() > 0,
        first.last() != ';',
    ensures
        report::pieces(first + "; "@ + rest, "; "@) == seq![first] + report::pieces(rest, "; "@),
        report::pieces(first, "; "@) == seq![first],
        text::contains(first + "; "@ + rest, "; "@),
{
    reveal_strlit("; ");
    let sep = "; "@;
    assert(sep =~= seq![';', ' ']);
    let info = first + sep + rest;
    let n = first.len() as int;
    assert(info.subrange(n, n + 2) =~= sep);
    text_laws::law_found(info, sep, n);
    let k = text::find(info, sep)->0;
    if k < n {
        assert(info.subrange(k, k + 2)[0] == info[k]);
        assert(info.subrange(k, k + 2)[1] == info[k + 1]);
        if k + 1 < n {
            assert(first.subrange(k, k + 2) =~= sep);
            text::lemma_contains(first, sep, k);
        } else {
            assert(info[k] == first[k]);
            assert(first.last() == ';');
        }
    }
    assert(k == n);
    assert(info.take(n) =~= first);
    assert(info.skip(n + 2) =~= rest);
}

/// What is said of several hunks is reported a line for each, with its number; what is said of one
/// is reported as it is.
pub proof fn law_hunks_are_reported(r: outcome::OpResultView, info: Seq<char>, i: int)
    requires
        r.match_info == Some(info),
    ensures
        r.op_type == "update"@ && !text::contains(info, "; "@) ==> report::match_lines(r) == seq![
            "  "@ + info,
        ],
        r.op_type == "update"@ && text::contains(info, "; "@) ==> {
            let parts = report::pieces(info, "; "@);
            &&& report::match_lines(r).len() == parts.len()
            &&& 0 <= i < parts.len() ==> report::match_lines(r)[i] == "  Hunk "@
                + numbers::decimal((i + 1) as nat) + ": "@ + text::trim(parts[i])
        },
        r.op_type != "update"@ ==> report::match_lines(r).len() == 0,
{
}

/// Whether a line has a hint that must end a word: it has it before its end, or before a character
/// that belongs to no word.
pub proof fn law_hint_ends_a_word(a: Seq<char>, hint: Seq<char>, b: Seq<char>)
    ensures
        hints::has_hint(a + hint, hint, true),
        b.len() > 0 && b[0] != '_' && !hints::alphanumeric(b[0]) ==> hints::has_hint(
            a + hint + b,
            hint,
            true,
        ),
        hints::has_hint(a + hint + b, hint, false),
        hint.len() > 0 && b.len() > 0 && (b[0] == '_' || hints::alphanumeric(b[0])) && (forall|j: int|
            #![trigger (a + hint + b).subrange(j, j + hint.len())]
            0 <= j && j + hint.len() <= (a + hint + b).len() && j != a.len() ==> (a + hint
                + b).subrange(j, j + hint.len()) != hint) ==> !hints::has_hint(
            a + hint + b,
            hint,
            true,
        ),
{
    let n = a.len() as int;
    let x = a + hint;
    assert(x.skip(n) =~= hint);
    assert(hint.take(hint.len() as int) =~= hint);
    assert(hints::ends_word_at(x, hint, n));
    let y = a + hint + b;
    assert(y.skip(n).take(hint.len() as int) =~= hint);
    assert(y.subrange(n, n + hint.len()) =~= hint);
    text::lemma_contains(y, hint, n);
    if b.len() > 0 {
        assert(y[n + hint.len()] == b[0]);
        if b[0] != '_' && !hints::alphanumeric(b[0]) {
            assert(hints::ends_word_at(y, hint, n));
        } else if hints::boundary_hit(y, hint) {
            let at = choose|at: int| #[trigger] hints::ends_word_at(y, hint, at);
            assert(y.skip(at).take(hint.len() as int) =~= y.subrange(at, at + hint.len()));
        }
    }
}

/// Whether a line of a file has a hint.
pub open spec fn hinted(file: Seq<Seq<char>>, hint: Seq<char>, boundary: bool, j: int) -> bool {
    0 <= j < file.len() && hints::has_hint(file[j], hint, boundary)
}

/// Whether a choice is one of some places, at its distance from a line that has a hint.
pub open spec fn is_choice(
    file: Seq<Seq<char>>,
    hint: Seq<char>,
    boundary: bool,
    place: int,
    len: int,
    j: int,
    choice: (int, int),
) -> bool {
    &&& hinted(file, hint, boundary, j)
    &&& choice == (hints::hint_distance(place, len, j), place)
}

/// A choice for one more place is as near as any line that has the hint lets it be.
proof fn lemma_choice_for_place(
    file: Seq<Seq<char>>,
    hint: Seq<char>,
    boundary: bool,
    place: int,
    len: int,
    best: Option<(int, int)>,
    upto: int,
)
    requires
        upto <= file.len(),
    ensures
        ({
            let c = hints::choice_for_place(file, hint, boundary, place, len, best, upto);
            &&& best is Some ==> c is Some && (c->0).0 <= (best->0).0
            &&& forall|j: int|
                j < upto && #[trigger] hinted(file, hint, boundary, j) ==> c is Some && (c->0).0
                    <= hints::hint_distance(place, len, j)
            &&& c is Some && c != best ==> exists|j: int| #[trigger]
                is_choice(file, hint, boundary, place, len, j, c->0)
        }),
    decreases upto,
{
    if upto > 0 {
        lemma_choice_for_place(file, hint, boundary, place, len, best, upto - 1);
        let before = hints::choice_for_place(file, hint, boundary, place, len, best, upto - 1);
        let c = hints::choice_for_place(file, hint, boundary, place, len, best, upto);
        if c != before {
            assert(is_choice(file, hint, boundary, place, len, upto - 1, c->0));
        }
        assert forall|j: int|
            j < upto && #[trigger] hinted(file, hint, boundary, j) implies c is Some && (c->0).0
            <= hints::hint_distance(place, len, j) by {
            if j < upto - 1 {
                assert(before is Some);
            }
        }
    }
}

/// A choice among some places is as near as any of them is to a line that has the hint.
proof fn lemma_choice_among(
    file: Seq<Seq<char>>,
    hint: Seq<char>,
    boundary: bool,
    places: Seq<usize>,
    len: int,
    k: int,
)
    requires
        k <= places.len(),
    ensures
        ({
            let c = hints::choice_among(file, hint, boundary, places, len, k);
            &&& forall|i: int, j: int|
                #![trigger places[i], hinted(file, hint, boundary, j)]
                0 <= i < k && hinted(file, hint, boundary, j) ==> c is Some && (c->0).0
                    <= hints::hint_distance(places[i] as int, len, j)
            &&& c is Some ==> exists|i: int, j: int|
                #![trigger places[i], hinted(file, hint, boundary, j)]
                0 <= i < k && is_choice(file, hint, boundary, places[i] as int, len, j, c->0)
        }),
    decreases k,
{
    if k > 0 {
        lemma_choice_among(file, hint, boundary, places, len, k - 1);
        let before = hints::choice_among(file, hint, boundary, places, len, k - 1);
        let c = hints::choice_among(file, hint, boundary, places, len, k);
        let place = places[k - 1] as int;
        lemma_choice_for_place(file, hint, boundary, place, len, before, file.len() as int);
        if c is Some && c != before {
            let j = choose|j: int| #[trigger]
                is_choice(file, hint, boundary, place, len, j, c->0);
            assert(hinted(file, hint, boundary, j));
            assert(is_choice(file, hint, boundary, places[k - 1] as int, len, j, c->0));
        }
    }
}

/// Where lines stand in several places, a hint tells them apart: the place is taken that is nearest
/// to a line that has the hint. Where no line has it, or none is given, no place is taken.
pub proof fn law_hint_tells_apart(
    file: Seq<Seq<char>>,
    hunk: patch::HunkView,
    path: Seq<char>,
    t: Threshold,
    hint: Seq<char>,
    boundary: bool,
)
    requires
        !boundary ==> hint.len() == 0 || hint.last() != '$',
        matching::found(file, hunks::pattern_of(hunk.lines), t).places.len() > 1,
        hunk.context_hint == Some(
            if boundary {
                hint + seq!['$']
            } else {
                hint
            },
        ),
    ensures
        ({
            let pattern = hunks::pattern_of(hunk.lines);
            let places = matching::found(file, pattern, t).places;
            let n = pattern.len() as int;
            match hunks::hunk_place(file, hunk, path, t) {
                Ok(at) => exists|i: int, j: int|
                    #![trigger places[i], hinted(file, hint, boundary, j)]
                    0 <= i < places.len() && at == places[i] && hinted(file, hint, boundary, j)
                        && forall|k: int, m: int|
                        #![trigger places[k], hinted(file, hint, boundary, m)]
                        0 <= k < places.len() && hinted(file, hint, boundary, m)
                            ==> hints::hint_distance(at, n, j) <= hints::hint_distance(
                            places[k] as int,
                            n,
                            m,
                        ),
                Err(e) => e is AmbiguousContext && forall|j: int|
                    !#[trigger] hinted(file, hint, boundary, j),
            }
        }),
        hunks::hunk_place(file, (patch::HunkView { context_hint: None, ..hunk }), path, t) matches Err(
            error::PatchErrorView::AmbiguousContext { .. },
        ),
{
    let given = hint + seq!['$'];
    assert(given.drop_last() =~= hint);
    assert(given.last() == '$');
    let pattern = hunks::pattern_of(hunk.lines);
    let places = matching::found(file, pattern, t).places;
    let n = pattern.len() as int;
    lemma_choice_among(file, hint, boundary, places, n, places.len() as int);
    assert(hints::hint_parts(hunk.context_hint->0) == (hint, boundary));
    let c = hints::choice_among(file, hint, boundary, places, n, places.len() as int);
    if c is Some {
        let (i, j) = choose|i: int, j: int|
            #![trigger places[i], hinted(file, hint, boundary, j)]
            0 <= i < places.len() && is_choice(
                file,
                hint,
                boundary,
                places[i] as int,
                n,
                j,
                c->0,
            );
        assert(places[i] == (c->0).1 && hinted(file, hint, boundary, j));
    } else {
        assert forall|j: int| !#[trigger] hinted(file, hint, boundary, j) by {
            let first = places[0];
        }
    }
}

} // verus!
