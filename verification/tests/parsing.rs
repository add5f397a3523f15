//! The language of patches.

use weave_patch_mcp::parser::{parse_patch, DiffLine, FileOp};
use weave_patch_mcp::similarity::Threshold;

#[test]
fn test_parse_add_file() {
    let input =
        "=== begin\ncreate src/hello.rs\nfn hello() {\n    println!(\"Hello\");\n}\n=== end";
    let result = parse_patch(input).unwrap();
    assert_eq!(result.ops.len(), 1);
    assert!(result.threshold.is_none());
    match &result.ops[0] {
        FileOp::Add { path, content } => {
            assert_eq!(path, "src/hello.rs");
            assert_eq!(content, "fn hello() {\n    println!(\"Hello\");\n}\n");
        }
        _ => panic!("Expected Add"),
    }
}

#[test]
fn test_parse_add_file_indented() {
    let input =
        "=== begin\ncreate src/hello.rs\nfn hello() {\n    println!(\"Hello\");\n}\n=== end";
    let result = parse_patch(input).unwrap();
    assert_eq!(result.ops.len(), 1);
    match &result.ops[0] {
        FileOp::Add { path, content } => {
            assert_eq!(path, "src/hello.rs");
            assert_eq!(content, "fn hello() {\n    println!(\"Hello\");\n}\n");
        }
        _ => panic!("Expected Add"),
    }
}

#[test]
fn test_parse_delete_file() {
    let input = "=== begin\ndelete src/old.rs\n=== end";
    let result = parse_patch(input).unwrap();
    assert_eq!(result.ops.len(), 1);
    match &result.ops[0] {
        FileOp::Delete { path } => assert_eq!(path, "src/old.rs"),
        _ => panic!("Expected Delete"),
    }
}

#[test]
fn test_parse_update_single_hunk() {
    let input =
        "=== begin\nupdate src/lib.rs\n@@\n old_line\n-remove_me\n+add_me\n new_line\n=== end";
    let result = parse_patch(input).unwrap();
    assert_eq!(result.ops.len(), 1);
    match &result.ops[0] {
        FileOp::Update {
            path,
            hunks,
            move_to,
        } => {
            assert_eq!(path, "src/lib.rs");
            assert!(move_to.is_none());
            assert_eq!(hunks.len(), 1);
            assert_eq!(hunks[0].context_hint, None);
            assert_eq!(hunks[0].lines.len(), 4);
            assert_eq!(hunks[0].lines[0], DiffLine::Context("old_line".to_string()));
            assert_eq!(hunks[0].lines[1], DiffLine::Remove("remove_me".to_string()));
            assert_eq!(hunks[0].lines[2], DiffLine::Add("add_me".to_string()));
            assert_eq!(hunks[0].lines[3], DiffLine::Context("new_line".to_string()));
        }
        _ => panic!("Expected Update"),
    }
}

#[test]
fn test_parse_update_multiple_hunks() {
    let input = "=== begin\nupdate src/lib.rs\n@@\n ctx1\n-old1\n+new1\n@@ second\n ctx2\n-old2\n+new2\n=== end";
    let result = parse_patch(input).unwrap();
    match &result.ops[0] {
        FileOp::Update { hunks, .. } => {
            assert_eq!(hunks.len(), 2);
            assert_eq!(hunks[0].context_hint, None);
            assert_eq!(hunks[1].context_hint, Some("second".to_string()));
        }
        _ => panic!("Expected Update"),
    }
}

#[test]
fn test_parse_update_with_context_hint() {
    let input = "=== begin\nupdate src/lib.rs\n@@ impl Server\n pub fn handle(&self) {\n-    old()\n  +    new()\n }\n=== end";
    let result = parse_patch(input).unwrap();
    match &result.ops[0] {
        FileOp::Update { hunks, .. } => {
            assert_eq!(hunks[0].context_hint, Some("impl Server".to_string()));
        }
        _ => panic!("Expected Update"),
    }
}

#[test]
fn test_parse_multi_file_patch() {
    let input = "=== begin\ncreate a.rs\n+content\ndelete b.rs\nupdate c.rs\n@@\n ctx\n-old\n+new\n=== end";
    let result = parse_patch(input).unwrap();
    assert_eq!(result.ops.len(), 3);
    assert!(matches!(result.ops[0], FileOp::Add { .. }));
    assert!(matches!(result.ops[1], FileOp::Delete { .. }));
    assert!(matches!(result.ops[2], FileOp::Update { .. }));
}

#[test]
fn test_parse_update_with_move_to() {
    let input =
        "=== begin\nupdate src/old.rs\nmove_to src/new.rs\n@@\n ctx\n-old\n+new\n=== end";
    let result = parse_patch(input).unwrap();
    match &result.ops[0] {
        FileOp::Update { path, move_to, .. } => {
            assert_eq!(path, "src/old.rs");
            assert_eq!(move_to.as_deref(), Some("src/new.rs"));
        }
        _ => panic!("Expected Update"),
    }
}

#[test]
fn test_error_missing_begin_no_ops() {
    // Input has no begin and no operation headers — still an error
    let input = "some content\n=== end";
    let result = parse_patch(input);
    assert!(result.is_err());
    assert!(result.unwrap_err().message().contains("begin"));
}

#[test]
fn test_parse_hint_with_class() {
    let input = "=== begin\nupdate src/lib.rs\n@@ class Server\n pub struct Server {\n-    old_field: i32,\n    new_field: i32,\n }\n=== end";
    let result = parse_patch(input).unwrap();
    match &result.ops[0] {
        FileOp::Update { hunks, .. } => {
            assert_eq!(hunks[0].context_hint, Some("class Server".to_string()));
        }
        _ => panic!("Expected Update"),
    }
}

#[test]
fn test_parse_hint_with_punctuation() {
    let input = "=== begin\nupdate src/lib.rs\n@@ fn main():\n fn main() {\n-    old()\n  +    new()\n }\n=== end";
    let result = parse_patch(input).unwrap();
    match &result.ops[0] {
        FileOp::Update { hunks, .. } => {
            assert_eq!(hunks[0].context_hint, Some("fn main():".to_string()));
        }
        _ => panic!("Expected Update"),
    }
}

#[test]
fn test_parse_indented_context() {
    let input = "=== begin\nupdate script.py\n@@\n def hello():\n     print(\"hi\")\n-    old_call()\n    new_call()\n     return\n=== end";
    let result = parse_patch(input).unwrap();
    match &result.ops[0] {
        FileOp::Update { hunks, .. } => {
            let ctx = &hunks[0].lines[1];
            assert!(matches!(ctx, DiffLine::Context(s) if s.contains("print")));
        }
        _ => panic!("Expected Update"),
    }
}

#[test]
fn test_parse_read_file_basic() {
    let input = "=== begin\nread src/main.rs\n=== end";
    let result = parse_patch(input).unwrap();
    assert_eq!(result.ops.len(), 1);
    match &result.ops[0] {
        FileOp::Read {
            path,
            symbols,
            language,
            offset,
            limit,
        } => {
            assert_eq!(path, "src/main.rs");
            assert!(symbols.is_none());
            assert!(language.is_none());
            assert!(offset.is_none());
            assert!(limit.is_none());
        }
        _ => panic!("Expected Read"),
    }
}

#[test]
fn test_parse_read_file_with_symbols() {
    let input = "=== begin\nread src/lib.rs symbols=Server,handle language=rust\n=== end";
    let result = parse_patch(input).unwrap();
    match &result.ops[0] {
        FileOp::Read {
            path,
            symbols,
            language,
            ..
        } => {
            assert_eq!(path, "src/lib.rs");
            assert_eq!(
                symbols,
                &Some(vec!["Server".to_string(), "handle".to_string()])
            );
            assert_eq!(language, &Some("rust".to_string()));
        }
        _ => panic!("Expected Read"),
    }
}

#[test]
fn test_parse_read_file_with_offset_limit() {
    let input = "=== begin\nread config.py offset=10 limit=50\n=== end";
    let result = parse_patch(input).unwrap();
    match &result.ops[0] {
        FileOp::Read {
            path,
            offset,
            limit,
            ..
        } => {
            assert_eq!(path, "config.py");
            assert_eq!(offset, &Some(10));
            assert_eq!(limit, &Some(50));
        }
        _ => panic!("Expected Read"),
    }
}

#[test]
fn test_parse_read_file_mixed_with_operations() {
    let input = "=== begin\nread src/main.rs\nupdate src/lib.rs\n@@\n ctx\n-old\n+new\ndelete old.rs\n=== end";
    let result = parse_patch(input).unwrap();
    assert_eq!(result.ops.len(), 3);
    assert!(matches!(result.ops[0], FileOp::Read { .. }));
    assert!(matches!(result.ops[1], FileOp::Update { .. }));
    assert!(matches!(result.ops[2], FileOp::Delete { .. }));
}

#[test]
fn test_parse_auto_wrap_missing_begin() {
    // Input has end but NOT begin — should still work
    let input = "create test.txt\nhello\n=== end";
    let result = parse_patch(input).unwrap();
    assert_eq!(result.ops.len(), 1);
    match &result.ops[0] {
        FileOp::Add { path, content } => {
            assert_eq!(path, "test.txt");
            assert_eq!(content, "hello\n");
        }
        _ => panic!("Expected Add"),
    }
}

#[test]
fn test_parse_auto_wrap_missing_end() {
    // Input has begin but NOT end — should still work
    let input = "=== begin\ndelete old.txt";
    let result = parse_patch(input).unwrap();
    assert_eq!(result.ops.len(), 1);
    match &result.ops[0] {
        FileOp::Delete { path } => assert_eq!(path, "old.txt"),
        _ => panic!("Expected Delete"),
    }
}

#[test]
fn test_parse_auto_wrap_both_missing() {
    // Input has NEITHER marker, just raw ops — should still work
    let input = "create test.txt\nhello\n";
    let result = parse_patch(input).unwrap();
    assert_eq!(result.ops.len(), 1);
    match &result.ops[0] {
        FileOp::Add { path, content } => {
            assert_eq!(path, "test.txt");
            assert_eq!(content, "hello\n");
        }
        _ => panic!("Expected Add"),
    }
}

#[test]
fn test_parse_threshold_valid() {
    let input = "=== begin threshold=0.95\ncreate test.txt\nhello\n=== end";
    let result = parse_patch(input).unwrap();
    assert_eq!(result.threshold, Some(Threshold { units: 950_000_000_000_000_000 }));
}

#[test]
fn test_parse_threshold_missing() {
    let input = "=== begin\ncreate test.txt\nhello\n=== end";
    let result = parse_patch(input).unwrap();
    assert!(result.threshold.is_none());
}

#[test]
fn test_parse_threshold_invalid_value() {
    let input = "=== begin threshold=invalid\ncreate test.txt\nhello\n=== end";
    let result = parse_patch(input);
    assert!(result.is_err());
    let err = result.unwrap_err().message();
    assert!(err.contains("Invalid threshold"));
}

#[test]
fn test_parse_threshold_out_of_range() {
    let input = "=== begin threshold=1.5\ncreate test.txt\nhello\n=== end";
    let result = parse_patch(input);
    assert!(result.is_err());
    let err = result.unwrap_err().message();
    assert!(err.contains("between 0.0 and 1.0"));
}

#[test]
fn test_parse_map_directory() {
    let input = "=== begin\nmap src/ depth=2\n=== end";
    let result = parse_patch(input).unwrap();
    assert_eq!(result.ops.len(), 1);
    match &result.ops[0] {
        FileOp::MapDir {
            path,
            depth,
            output_limit,
        } => {
            assert_eq!(path, "src/");
            assert_eq!(depth, &Some(2));
            assert!(output_limit.is_none());
        }
        _ => panic!("Expected MapDir"),
    }
}

#[test]
fn test_parse_update_indented_diff() {
    // Test with 2-space indented diff lines
    let input = "=== begin\nupdate src/lib.rs\n  @@ fn main\n   fn main() {\n  -    old()\n  +    new()\n   }\n=== end";
    let result = parse_patch(input).unwrap();
    match &result.ops[0] {
        FileOp::Update { hunks, .. } => {
            assert_eq!(hunks[0].context_hint, Some("fn main".to_string()));
            // Check that indented lines are parsed correctly
            assert_eq!(hunks[0].lines.len(), 4);
            // Line 0: "  fn main() {" -> Context(" fn main() {")
            assert!(matches!(&hunks[0].lines[0], DiffLine::Context(s) if s == " fn main() {"));
            // Line 1: "  -    old()" -> Remove("    old()")
            assert!(matches!(&hunks[0].lines[1], DiffLine::Remove(s) if s == "    old()"));
            // Line 2: "  +    new()" -> Add("    new()")
            assert!(matches!(&hunks[0].lines[2], DiffLine::Add(s) if s == "    new()"));
            // Line 3: "   }" -> Context(" }")
            assert!(matches!(&hunks[0].lines[3], DiffLine::Context(s) if s == " }"));
        }
        _ => panic!("Expected Update"),
    }
}

// ---------------------------------------------------------------------------
// The language as a whole
// ---------------------------------------------------------------------------

#[test]
fn markers_may_be_left_out() {
    let body = "update a.rs\n@@ fn f\n x\n-y\n+z\nread b.rs limit=5";
    let full = parse_patch(&format!("=== begin\n{}\n=== end", body)).unwrap();
    assert_eq!(parse_patch(body).unwrap().ops, full.ops);
    assert_eq!(parse_patch(&format!("=== begin\n{}", body)).unwrap().ops, full.ops);
    assert_eq!(parse_patch(&format!("{}\n=== end", body)).unwrap().ops, full.ops);
    assert_eq!(full.ops.len(), 2);
    assert!(full.threshold.is_none());
    assert!(parse_patch(body).unwrap().threshold.is_none());
    // The last line may end in a return.
    let returned = format!("{}\r", body);
    assert_eq!(parse_patch(&returned).unwrap().ops, full.ops);
    // A threshold that is none is shown as it is written, one out of range as a number.
    let refused = |value: &str| {
        parse_patch(&format!("=== begin threshold={}\n{}\n=== end", value, body))
            .unwrap_err()
            .message()
    };
    assert_eq!(
        refused("1.50"),
        "parse error: Threshold must be between 0.0 and 1.0, got 1.5"
    );
    assert_eq!(refused("1.5.0"), "parse error: Invalid threshold value: '1.5.0'");
    // A header without its path is refused with markers and without.
    assert!(parse_patch("read \n").is_err());
    assert!(parse_patch("=== begin\nread \n\n=== end").is_err());
}

#[test]
fn native_patches_are_translated() {
    let native = "*** Begin Patch\n*** Add File: a.txt\n+x\n*** Update File: b.txt\n*** Move to: c.txt\n@@\n-o\n+n\n*** End of File\n*** Delete File: d.txt\n*** Read File: e.txt\n*** End Patch";
    let own = "=== begin\ncreate a.txt\n+x\nupdate b.txt\nmove_to c.txt\n@@\n-o\n+n\ndelete d.txt\nread e.txt\n=== end";
    assert_eq!(parse_patch(native).unwrap().ops, parse_patch(own).unwrap().ops);
}

#[test]
fn view_is_another_word_for_read() {
    let a = parse_patch("view a.rs symbols=x,y start=3 end=9").unwrap();
    let b = parse_patch("read a.rs symbols=x,y start=3 end=9").unwrap();
    assert_eq!(a.ops, b.ops);
    assert_eq!(
        a.ops[0],
        FileOp::Read {
            path: "a.rs".to_string(),
            symbols: Some(vec!["x".to_string(), "y".to_string()]),
            language: None,
            offset: Some(2),
            limit: Some(7),
        }
    );
}

#[test]
fn added_lines_are_the_lines_of_the_file() {
    let content = |patch: &str| match &parse_patch(patch).unwrap().ops[0] {
        FileOp::Write { content, .. } => content.clone(),
        other => panic!("expected a write, got {:?}", other),
    };
    assert_eq!(content("write a\n+x\n+\n+ y"), "x\n\n y\n");
    assert_eq!(content("write a\nx\n+y"), "x\n+y\n");
    assert_eq!(content("write a\nx\n\n\n"), "x\n");
    assert_eq!(content("write a\n"), "");
}

#[test]
fn operations_that_say_too_little_are_refused() {
    assert!(parse_patch("read ").unwrap_err().message().contains("Missing path"));
    assert!(parse_patch("map ").unwrap_err().message().contains("Missing path"));
    assert!(parse_patch("move a.txt").is_err());
    assert!(parse_patch("move a b c").is_err());
    assert_eq!(
        parse_patch("=== end\n=== begin\nread a").unwrap_err().message(),
        "parse error: '=== end' must come after '=== begin'"
    );
    assert_eq!(
        parse_patch("move a b").unwrap().ops[0],
        FileOp::Move { from: "a".to_string(), to: "b".to_string() }
    );
}
