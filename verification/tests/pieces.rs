//! The pieces that patches are made of.

use weave_patch_mcp::bytes::{encode, is_binary};
use weave_patch_mcp::diffs::{generate_add_diff, generate_unified_diff};
use weave_patch_mcp::error::{ClosestMatch, ContextNotFoundData, PatchError};
use weave_patch_mcp::excerpt::{describe_nearest, nearest_excerpt_with_matches};
use weave_patch_mcp::functions::{extract_function_ranges, find_function_end};
use weave_patch_mcp::hints::{
    find_in_window, find_with_hint, hint_matches_at_word_boundary, pick_by_hint,
    word_boundary_match,
};
use weave_patch_mcp::hunks::{apply_hunk, apply_hunk_at, apply_hunks, build_match_info, joined_lines};
use weave_patch_mcp::matching::{
    find_matches, find_matches_exact, find_matches_with_type, most_similar,
};
use weave_patch_mcp::newlines::unix_newlines;
use weave_patch_mcp::patch::{DiffLine, Hunk};
use weave_patch_mcp::paths::{join_path, resolve_path, PathSource};
use weave_patch_mcp::reader::{begins_in_line, find_opening, leading_spaces, show_symbol};
use weave_patch_mcp::similarity::{similarity, Similarity, Threshold, DEFAULT_THRESHOLD_UNITS};
use weave_patch_mcp::threshold::{read_threshold, show_number, ThresholdText};

fn lines(s: &str) -> Vec<String> {
    s.lines().map(|l| l.to_string()).collect()
}

fn usual() -> Threshold {
    Threshold { units: DEFAULT_THRESHOLD_UNITS }
}

fn threshold(s: &str) -> ThresholdText {
    read_threshold(&s.chars().collect())
}

// ---------------------------------------------------------------------------
// Similarity and thresholds
// ---------------------------------------------------------------------------

#[test]
fn similarity_counts_shared_characters() {
    let s = similarity("abcd\n", "abxd\n");
    assert_eq!(s, Similarity { matched: 4, old_len: 5, new_len: 5 });
    assert_eq!(s.in_percent(), 80);
    assert!(!s.meets(usual()));
    assert!(s.meets(Threshold { units: 800_000_000_000_000_000 }));
    let same = similarity("abc", "abc");
    assert_eq!(same.in_percent(), 100);
    assert!(s.is_below(&same));
    assert!(!same.is_below(&s));
    let none = similarity("", "");
    assert_eq!(none.in_percent(), 100);
}

#[test]
fn numbers_are_shown_plainly() {
    let shown = |s: &str| show_number(&s.chars().collect());
    for s in [
        "1.50", "2", "2.0", "+3.25", "-0.10", "-.5", "1e2", "12.5e-1", "150e-2", "100", "0010", "1e30",
        "-1e-10", "inf", "-INF", "Infinity", "nan", "-nan", "1e39", "-1e400", "3.4e38", "-0", "0.0",
        "-1e-50", "999999", "-1.5e-7",
    ] {
        assert_eq!(shown(s), s.parse::<f32>().unwrap().to_string(), "{}", s);
    }
    assert_eq!(shown("1.50"), "1.5");
    assert_eq!(shown("340282356779733661637539395458142568447"), "340282356779733661637539395458142568447");
    assert_eq!(shown("340282356779733661637539395458142568448"), "inf");
    assert_eq!(shown("one"), "one");
}

#[test]
fn thresholds_are_decimal_numbers() {
    let half = ThresholdText::Valid(Threshold { units: 500_000_000_000_000_000 });
    assert_eq!(threshold("0.5"), half);
    assert_eq!(threshold(".5"), half);
    assert_eq!(threshold("+0.50"), half);
    assert_eq!(threshold("5e-1"), half);
    assert_eq!(threshold("1"), ThresholdText::Valid(Threshold { units: 1_000_000_000_000_000_000 }));
    assert_eq!(threshold("0"), ThresholdText::Valid(Threshold { units: 0 }));
    assert_eq!(threshold("-0"), ThresholdText::Valid(Threshold { units: 0 }));
    assert_eq!(threshold("1.01"), ThresholdText::OutOfRange);
    // What single precision cannot tell from one or zero is one or zero.
    assert_eq!(threshold("1.00000005"), threshold("1"));
    assert_eq!(threshold("1.000000059604644775390625"), threshold("1"));
    assert_eq!(threshold("1.000000059604644775390626"), ThresholdText::OutOfRange);
    assert_eq!(threshold("-7e-46"), threshold("0"));
    assert_eq!(threshold("-7.1e-46"), ThresholdText::OutOfRange);
    assert_eq!(threshold("-1e-99999999999999999999999999"), threshold("0"));
    assert_eq!(threshold("-0.1"), ThresholdText::OutOfRange);
    assert_eq!(threshold("inf"), ThresholdText::OutOfRange);
    assert_eq!(threshold("nan"), ThresholdText::OutOfRange);
    assert_eq!(threshold(""), ThresholdText::Invalid);
    assert_eq!(threshold("."), ThresholdText::Invalid);
    assert_eq!(threshold("0,5"), ThresholdText::Invalid);
    assert_eq!(threshold("0.5 "), ThresholdText::Invalid);
}

// ---------------------------------------------------------------------------
// Places
// ---------------------------------------------------------------------------

#[test]
fn exact_places_ignore_white_space_at_line_ends() {
    let file = lines("a  \nb\na\nb\n");
    assert_eq!(find_matches_exact(&file, &lines("a\nb")), vec![0, 2]);
    assert_eq!(find_matches_exact(&file, &lines("b\na\t")), vec![1]);
    assert!(find_matches_exact(&file, &Vec::new()).is_empty());
    assert!(find_matches_exact(&lines("a"), &lines("a\nb")).is_empty());
}

#[test]
fn places_are_found_in_three_ways() {
    let file = lines("fn  f( x )\n    body();\n    more(1);\n}\n");
    let (at, how) = find_matches_with_type(&file, &lines("    body();"), usual());
    assert_eq!((at, how.as_str()), (vec![1], "exact"));
    let (at, how) = find_matches_with_type(&file, &lines("fn f( x )\nbody();"), usual());
    assert_eq!((at, how.as_str()), (vec![0], "normalized"));
    let (at, how) =
        find_matches_with_type(&file, &lines("    body();\n    more(2);\n}"), usual());
    assert_eq!((at, how.as_str()), (vec![1], "fuzzy:96%"));
    let (at, how) = find_matches_with_type(&file, &lines("x\ny\nz"), usual());
    assert_eq!((at, how.as_str()), (Vec::new(), "none"));
    let strict = Threshold { units: 970_000_000_000_000_000 };
    assert!(find_matches(&file, &lines("    body();\n    more(2);\n}"), strict).is_empty());
}

#[test]
fn the_first_of_the_most_similar_places_is_taken() {
    let of = |matched: usize| Similarity { matched, old_len: 10, new_len: 10 };
    assert_eq!(most_similar(&vec![of(8), of(9), of(10), of(10)], usual()), Some(2));
    assert_eq!(most_similar(&vec![of(8), of(7)], usual()), None);
    assert_eq!(most_similar(&Vec::new(), usual()), None);
    let half = Threshold { units: 500_000_000_000_000_000 };
    assert_eq!(most_similar(&vec![of(4), of(5)], half), Some(1));
}

#[test]
fn hints_at_word_ends() {
    assert_eq!(word_boundary_match("fn foo$"), ("fn foo".to_string(), true));
    assert_eq!(word_boundary_match("fn foo"), ("fn foo".to_string(), false));
    assert!(hint_matches_at_word_boundary("fn foo()", "fn foo"));
    assert!(hint_matches_at_word_boundary("fn foo", "fn foo"));
    assert!(!hint_matches_at_word_boundary("fn foo_bar()", "fn foo"));
    assert!(!hint_matches_at_word_boundary("fn foo2()", "fn foo"));
    assert!(!hint_matches_at_word_boundary("fn fooé()", "fn foo"));
    assert!(!hint_matches_at_word_boundary("fn bar()", "fn foo"));
    assert!(hint_matches_at_word_boundary("foo_bar = foo", "foo"));
    assert!(hint_matches_at_word_boundary("foo_bar = foo + foo2", "foo"));
    assert!(!hint_matches_at_word_boundary("foo_bar = foo2", "foo"));
    assert!(!hint_matches_at_word_boundary("fo", "foo"));
}

#[test]
fn a_hint_finds_the_nearest_place_behind_it() {
    let file = lines("x\nstart A\nx\nstart B\nx\n");
    let x = lines("x");
    assert_eq!(find_in_window(&file, &x, 1), Some(2));
    assert_eq!(find_in_window(&file, &x, 3), Some(4));
    assert_eq!(find_in_window(&file, &lines("start A"), 3), Some(1));
    assert_eq!(find_in_window(&file, &lines("y"), 3), None);
    assert_eq!(find_with_hint(&file, &x, "start B"), Some(4));
    assert_eq!(find_with_hint(&file, &x, "START b"), Some(4));
    assert_eq!(find_with_hint(&file, &x, "start C"), None);
    // A place right before the hint is as good as one that holds it.
    assert_eq!(pick_by_hint(&file, &vec![0, 2, 4], "start B", 1), Some(2));
    // Of two that are as far away, the one behind the hint is taken.
    assert_eq!(pick_by_hint(&lines("x\ny\nstart\nx"), &vec![0, 3], "start", 1), Some(3));
    assert_eq!(pick_by_hint(&file, &vec![0, 2, 4], "nowhere", 1), None);
    // The matches need not lie in the file.
    assert_eq!(pick_by_hint(&lines("x\nstart"), &vec![9, 4, 40], "start", 5), Some(4));
    assert_eq!(pick_by_hint(&file, &Vec::new(), "start B", 1), None);
}

#[test]
fn the_closest_places_are_shown() {
    let file = lines("alpha\nbeta\ngamma\ndelta\n");
    let (excerpt, closest) = nearest_excerpt_with_matches(&file, &lines("beta\ngamme"));
    assert_eq!(
        excerpt,
        "Nearest partial match (1/2 lines):\n     1: alpha\n     2: beta\n     3: gamma\n     4: delta"
    );
    assert_eq!(closest.len(), 3);
    assert_eq!(closest[0].line_number, 2);
    assert_eq!(closest[0].actual_content, "beta");
    assert_eq!(closest[0].suggestion, "Replace pattern line 1 with: beta");
    let of = |matched: usize| Similarity { matched, old_len: 10, new_len: 10 };
    let like = vec![of(0), of(7), of(2), of(7)];
    let (excerpt, closest) = describe_nearest(&file, &lines("other"), &like);
    assert!(excerpt.starts_with("File preview (lines 1-4):\n     2: beta\n"));
    let found: Vec<usize> = closest.iter().map(|c| c.line_number).collect();
    assert_eq!(found, vec![2, 4, 3]);
    let (excerpt, closest) = nearest_excerpt_with_matches(&Vec::new(), &lines("x"));
    assert_eq!(excerpt, "  (empty file)");
    assert!(closest.is_empty());
}

// ---------------------------------------------------------------------------
// Hunks
// ---------------------------------------------------------------------------

#[test]
fn a_hunk_keeps_the_lines_of_the_file() {
    let hunk = Hunk {
        context_hint: None,
        lines: vec![
            DiffLine::Context("a".to_string()),
            DiffLine::Remove("b".to_string()),
            DiffLine::Add("B".to_string()),
        ],
    };
    let (after, how) = apply_hunk(&lines("0\na \nb\nc"), &hunk, "f", usual()).unwrap();
    assert_eq!(after, lines("0\na \nB\nc"));
    assert_eq!((how.match_type.as_str(), how.matched_at), ("exact", 2));
}

#[test]
fn a_hunk_is_applied_where_it_was_found() {
    let change = vec![
        DiffLine::Context("x".to_string()),
        DiffLine::Remove("y".to_string()),
        DiffLine::Add("new".to_string()),
    ];
    // The lines of the file stay as they are, also where they are only similar.
    assert_eq!(apply_hunk_at(&lines("a\nX\nY\nb"), &change, 1), lines("a\nX\nnew\nb"));
}

#[test]
fn a_hunk_of_additions_is_appended() {
    let hunk = Hunk { context_hint: None, lines: vec![DiffLine::Add("z".to_string())] };
    let (after, how) = apply_hunk(&lines("a\nb"), &hunk, "f", usual()).unwrap();
    assert_eq!(after, lines("a\nb\nz"));
    assert_eq!((how.match_type.as_str(), how.matched_at), ("append", 2));
}

#[test]
fn a_hunk_of_context_changes_nothing() {
    let hunk = Hunk { context_hint: None, lines: vec![DiffLine::Context("b".to_string())] };
    let (after, _) = apply_hunk(&lines("a\nb\nc"), &hunk, "f", usual()).unwrap();
    assert_eq!(after, lines("a\nb\nc"));
}

#[test]
fn lines_that_occur_twice_need_a_hint() {
    let file = lines("one\nx\n\ntwo\nx");
    let change = |hint: Option<&str>| Hunk {
        context_hint: hint.map(|h| h.to_string()),
        lines: vec![DiffLine::Remove("x".to_string()), DiffLine::Add("y".to_string())],
    };
    match apply_hunk(&file, &change(None), "f", usual()) {
        Err(PatchError::AmbiguousContext { path, count, match_positions, context_at_each }) => {
            assert_eq!(path, "f");
            assert_eq!(count, 2);
            assert_eq!(match_positions, vec![1, 4]);
            assert_eq!(context_at_each, vec!["x\n\ntwo".to_string(), "x".to_string()]);
        }
        other => panic!("expected an ambiguous context, got {:?}", other),
    }
    let (after, _) = apply_hunk(&file, &change(Some("two")), "f", usual()).unwrap();
    assert_eq!(after, lines("one\nx\n\ntwo\ny"));
    assert!(apply_hunk(&file, &change(Some("three")), "f", usual()).is_err());
}

#[test]
fn a_hint_at_a_word_end_picks_among_places() {
    let file = lines("def foo():\n    return 1\n\ndef foo_bar():\n    return 1");
    let change = |hint: &str| Hunk {
        context_hint: Some(hint.to_string()),
        lines: vec![
            DiffLine::Remove("    return 1".to_string()),
            DiffLine::Add("    return 10".to_string()),
        ],
    };
    let (after, how) = apply_hunk(&file, &change("def foo$"), "f.py", usual()).unwrap();
    assert_eq!(after, lines("def foo():\n    return 10\n\ndef foo_bar():\n    return 1"));
    assert_eq!((how.match_type.as_str(), how.matched_at), ("exact", 2));
    let (after, how) = apply_hunk(&file, &change("def foo_bar$"), "f.py", usual()).unwrap();
    assert_eq!(after, lines("def foo():\n    return 1\n\ndef foo_bar():\n    return 10"));
    assert_eq!(how.matched_at, 5);
    assert!(apply_hunk(&file, &change("def fo$"), "f.py", usual()).is_err());
}

#[test]
fn a_reversed_hunk_undoes_a_hunk() {
    let file = lines("a\nb\nc\nd");
    let hunk = Hunk {
        context_hint: None,
        lines: vec![
            DiffLine::Context("b".to_string()),
            DiffLine::Remove("c".to_string()),
            DiffLine::Add("x".to_string()),
            DiffLine::Add("y".to_string()),
        ],
    };
    let back = Hunk {
        context_hint: None,
        lines: vec![
            DiffLine::Context("b".to_string()),
            DiffLine::Add("c".to_string()),
            DiffLine::Remove("x".to_string()),
            DiffLine::Remove("y".to_string()),
        ],
    };
    let (after, how) = apply_hunk(&file, &hunk, "f", usual()).unwrap();
    assert_eq!(after, lines("a\nb\nx\ny\nd"));
    let (again, how_back) = apply_hunk(&after, &back, "f", usual()).unwrap();
    assert_eq!(again, file);
    assert_eq!((how.matched_at, how_back.matched_at), (2, 2));
    assert_eq!(how_back.match_type, "exact");
}

#[test]
fn hunks_are_applied_one_after_the_other() {
    let swap = |a: &str, b: &str| Hunk {
        context_hint: None,
        lines: vec![DiffLine::Remove(a.to_string()), DiffLine::Add(b.to_string())],
    };
    let (after, how) =
        apply_hunks(lines("a"), &vec![swap("a", "b"), swap("b", "c")], "f", usual()).unwrap();
    assert_eq!(after, lines("c"));
    assert_eq!(
        build_match_info(&how).unwrap(),
        "Hunk 1: exact at line 1; Hunk 2: exact at line 1"
    );
    assert!(build_match_info(&Vec::new()).is_none());
    assert!(apply_hunks(lines("a"), &vec![swap("a", "b"), swap("a", "c")], "f", usual()).is_err());
}

#[test]
fn the_end_of_the_last_line_stays() {
    assert_eq!(joined_lines("x\n", &lines("a\nb")), "a\nb\n");
    assert_eq!(joined_lines("x", &lines("a\nb")), "a\nb");
    assert_eq!(unix_newlines("a\r\nb\rc\n"), "a\nb\nc\n");
}

// ---------------------------------------------------------------------------
// Diffs and bytes
// ---------------------------------------------------------------------------

#[test]
fn diffs_show_what_changed() {
    let diff = generate_unified_diff("a\nb\nc\n", "a\nB\nc\n", "f.txt").unwrap();
    assert_eq!(diff, "--- f.txt\n+++ f.txt\n@@ -1,3 +1,3 @@\n a\n-b\n+B\n c\n");
    assert!(generate_unified_diff("a\n", "a\n", "f.txt").is_none());
    let diff = generate_add_diff("/w/dir/n.txt", &lines("x\ny")).unwrap();
    assert_eq!(diff, "--- /dev/null\n+++ n.txt\n@@ -0,0 +1,2 @@\n+x\n+y\n");
    assert!(generate_add_diff("/w/n.txt", &Vec::new()).is_none());
}

#[test]
fn long_diffs_are_cut_between_characters() {
    let long = "é".repeat(4000);
    let diff = generate_unified_diff("", &long, "f").unwrap();
    assert!(diff.ends_with("\n... [diff truncated]"));
    let body = diff.strip_suffix("\n... [diff truncated]").unwrap();
    assert!(body.len() <= 4000 && body.len() > 3990);
}

#[test]
fn a_zero_byte_makes_a_file_binary() {
    assert!(is_binary(&vec![65, 0, 66]));
    assert!(!is_binary(&encode("text é")));
    let mut far = vec![65u8; 8192];
    far.push(0);
    assert!(!is_binary(&far));
    assert_eq!(encode("é"), vec![0xc3, 0xa9]);
}

// ---------------------------------------------------------------------------
// Paths
// ---------------------------------------------------------------------------

#[test]
fn paths_are_resolved_by_where_they_start() {
    let home = Some("/home/me".to_string());
    let r = resolve_path("/w", &home, "a/./b.txt");
    assert_eq!((r.full_path.as_str(), r.source), ("/w/a/b.txt", PathSource::Relative));
    let r = resolve_path("/w", &home, "/etc/x");
    assert_eq!((r.full_path.as_str(), r.source), ("/etc/x", PathSource::Absolute));
    let r = resolve_path("/w", &home, "~/x");
    assert_eq!((r.full_path.as_str(), r.source), ("/home/me/x", PathSource::Home));
    let r = resolve_path("/w", &home, "~");
    assert_eq!((r.full_path.as_str(), r.source), ("/home/me", PathSource::Home));
    assert_eq!(PathSource::Home.as_str(), "home");
    assert_eq!(join_path("/w", "../x"), "/w/../x");
    let r = resolve_path("/w", &home, "./a//x");
    assert_eq!((r.full_path.as_str(), r.shown_path.as_str()), ("/w/a/x", "/w/./a//x"));
    // Below a directory with a drive, backslashes part the components, and a drive is a root.
    let home = Some("C:\\Users\\me".to_string());
    let r = resolve_path("C:\\w", &home, "src\\a.rs");
    assert_eq!((r.full_path.as_str(), r.source), ("C:/w/src/a.rs", PathSource::Relative));
    let r = resolve_path("C:\\w", &home, "D:\\x\\y");
    assert_eq!((r.full_path.as_str(), r.source), ("D:/x/y", PathSource::Absolute));
    let r = resolve_path("C:\\w", &home, "~\\x");
    assert_eq!((r.full_path.as_str(), r.source), ("C:/Users/me/x", PathSource::Home));
    let r = resolve_path("/w", &None, "D:\\x");
    assert_eq!((r.full_path.as_str(), r.source), ("/w/D:\\x", PathSource::Relative));
}

// ---------------------------------------------------------------------------
// Source texts
// ---------------------------------------------------------------------------

#[test]
fn functions_are_found_with_their_lines() {
    let source = "\
pub fn one() {
    let s = \"}\";
}

async fn two() {
    if x {
    }
}
";
    let list = extract_function_ranges(source);
    let found: Vec<(String, usize, usize)> =
        list.into_iter().map(|f| (f.name, f.start, f.end)).collect();
    assert_eq!(found, vec![("one".to_string(), 1, 3), ("two".to_string(), 5, 8)]);
    let python = extract_function_ranges("def a():\n    x\n\ndef b():\n    y\n");
    assert_eq!(python.len(), 2);
    assert_eq!((python[0].start, python[0].end), (1, 3));
    assert_eq!((python[1].start, python[1].end), (4, 5));
    assert!(extract_function_ranges("no functions here").is_empty());
    assert_eq!(find_function_end(&lines("a"), 5), 6);
}

#[test]
fn a_function_may_end_in_its_first_line() {
    let file = lines("fn a() {}\nfn b() {\n}");
    assert_eq!(find_function_end(&file, 0), 1);
    assert_eq!(find_function_end(&file, 1), 3);
    // The braces of parameters do not end a function.
    assert_eq!(find_function_end(&lines("function f({ a }) {\n  x\n}\ny"), 0), 3);
    assert_eq!(find_function_end(&lines("function f({a})\n{\n}"), 0), 3);
    assert_eq!(find_function_end(&lines("fn a() {} // {\nfn b() {\n}"), 0), 1);
    assert_eq!(find_function_end(&lines("fn a() {}  /* b */\nfn b() {\n}"), 0), 1);
    let list = extract_function_ranges("fn a() {}\nfn b() {\n}\n");
    let found: Vec<(String, usize, usize)> =
        list.into_iter().map(|f| (f.name, f.start, f.end)).collect();
    assert_eq!(found, vec![("a".to_string(), 1, 1), ("b".to_string(), 2, 3)]);
}

#[test]
fn no_more_than_five_functions_are_shown() {
    let source: String = (0..8).map(|i| format!("fn f{}() {{\n}}\n", i)).collect();
    let list = extract_function_ranges(&source);
    assert_eq!(list.len(), 5);
    assert_eq!(list[4].name, "f4");
}

#[test]
fn symbols_are_found_by_their_definitions() {
    let source = lines("pub struct B {\n}\n// fn a\n");
    assert_eq!(find_opening(&source, "rust", "B"), Some(0));
    assert_eq!(find_opening(&source, "rust", "C"), None);
    // A definition may go on in the next line.
    assert_eq!(find_opening(&lines("x\nfn\nlong()"), "rust", "long"), Some(1));
    // It starts in the line itself.
    assert_eq!(find_opening(&lines("fn a() {}\nfn b() {}"), "rust", "b"), Some(1));
    assert!(begins_in_line(Some(2), "abc"));
    assert!(!begins_in_line(Some(3), "abc"));
    assert!(begins_in_line(Some(1), "é"));
    assert!(!begins_in_line(None, "abc"));
    // A name is taken as it stands.
    assert_eq!(find_opening(&source, "rust", "."), None);
    assert_eq!(show_symbol(&source, "rust", "B", Some(0)), "// symbol: B\npub struct B {\n}");
    assert_eq!(show_symbol(&source, "rust", "C", None), "// symbol C: NOT FOUND");
    assert_eq!(leading_spaces("   x"), 3);
}

// ---------------------------------------------------------------------------
// Errors
// ---------------------------------------------------------------------------

#[test]
fn every_error_says_what_to_do() {
    let e = PatchError::Parse("bad".to_string());
    assert_eq!(e.message(), "parse error: bad");
    let o = e.to_json();
    assert_eq!(o.suggested_action, "correct_syntax_in_patch_block");
    assert_eq!(o.recovery_hint, "Patch syntax error: bad");

    let e = PatchError::FileNotFound("a.rs".to_string());
    let o = e.to_json();
    assert_eq!(o.file, "a.rs");
    assert_eq!(o.suggested_action, "create_target_file_before_patch");
    assert_eq!(o.recovery_hint, "File 'a.rs' does not exist. Create it first or check path.");

    let e = PatchError::FileAlreadyExists("a.rs".to_string());
    assert_eq!(e.message(), "file already exists: a.rs");
    assert_eq!(e.to_json().suggested_action, "use_update_operation_for_existing_file");

    let e = PatchError::SymlinkRejected("l".to_string());
    assert!(e.message().contains("ymlink rejected: l"));
    assert_eq!(e.to_json().suggested_action, "resolve_symlink");

    let e = PatchError::Io("denied".to_string());
    assert_eq!(e.message(), "io error: denied");
    assert_eq!(e.to_json().suggested_action, "check_permissions");
    assert_eq!(e.to_json().recovery_hint, "IO error: denied");

    let e = PatchError::AmbiguousContext {
        path: "a.rs".to_string(),
        count: 2,
        match_positions: vec![1, 30],
        context_at_each: vec!["x".to_string(), "y".to_string()],
    };
    assert_eq!(e.message(), "ambiguous context: a.rs (2 matches at lines: 1, 30)");
    let o = e.to_json();
    assert_eq!(o.actual_content, "x\n---\ny");
    assert_eq!(o.expected_context, vec!["Ambiguous: 2 matches found".to_string()]);
    assert_eq!(
        o.recovery_hint,
        "Add more context lines to disambiguate 2 matches at lines: 1, 30"
    );
}

#[test]
fn a_context_that_is_not_found_is_described() {
    let e = PatchError::ContextNotFound(Box::new(ContextNotFoundData {
        path: "foo.rs".to_string(),
        pattern: vec!["fn bar()".to_string()],
        hint: None,
        total_lines: 10,
        file_excerpt: "  1: fn foo()".to_string(),
        closest_matches: vec![ClosestMatch {
            line_number: 1,
            similarity: Similarity { matched: 6, old_len: 8, new_len: 8 },
            actual_content: "fn foo()".to_string(),
            suggestion: "Replace with fn foo()".to_string(),
        }],
    }));
    assert_eq!(
        e.message(),
        "Context not found: foo.rs\n  file has 10 lines, expected 1 line pattern\n  Nearest file content:\n      1: fn foo()\n"
    );
    let o = e.to_json();
    assert_eq!(o.suggested_action, "re_read_file");
    assert_eq!(o.actual_content, "fn foo()");
    assert_eq!(o.expected_context, vec!["fn bar()".to_string()]);
    assert_eq!(o.similarity_score, Some(Similarity { matched: 6, old_len: 8, new_len: 8 }));
    assert_eq!(
        o.recovery_hint,
        "File 'foo.rs' has 10 lines. Check if context was modified or moved."
    );
}
