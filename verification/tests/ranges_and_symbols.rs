//! Ranges of lines, and symbols of source texts.

use weave_patch_mcp::reader::{apply_line_range, extract_symbols};

#[test]
fn test_line_range_basic() {
    let content = (1..=10)
        .map(|i| format!("line{}", i))
        .collect::<Vec<_>>()
        .join("\n");
    let (out, start, end) = apply_line_range(&content, Some(0), Some(3));
    assert_eq!(out, "line1\nline2\nline3");
    assert_eq!(start, 1);
    assert_eq!(end, 3);
}

#[test]
fn test_line_range_offset_beyond_eof() {
    let content = "a\nb\nc";
    let (out, start, end) = apply_line_range(content, Some(100), Some(5));
    assert_eq!(out, "");
    assert_eq!(start, 101);
    assert_eq!(end, 101);
}

#[test]
fn test_line_range_no_params() {
    let content = "a\nb\nc";
    let (out, start, end) = apply_line_range(content, None, None);
    assert_eq!(out, "a\nb\nc");
    assert_eq!(start, 1);
    assert_eq!(end, 3);
}

#[test]
fn test_line_range_with_offset_mid() {
    let content = "a\nb\nc\nd\ne";
    let (out, start, end) = apply_line_range(content, Some(2), Some(2));
    assert_eq!(out, "c\nd");
    assert_eq!(start, 3);
    assert_eq!(end, 4);
}

#[test]
fn test_extract_rust_fn() {
    let content = r#"
fn foo(x: i32) -> i32 {
    x + 1
}

fn bar() {}
"#;
    let result = extract_symbols(content, "rust", &vec!["foo".to_string()]);
    assert!(result.contains("// symbol: foo"));
    assert!(result.contains("fn foo"));
    assert!(result.contains("x + 1"));
    assert!(!result.contains("fn bar"));
}

#[test]
fn test_extract_rust_impl() {
    let content = r#"
struct Foo {
    x: i32,
}

impl Foo {
    fn new() -> Self {
        Self { x: 0 }
    }
}
"#;
    let result = extract_symbols(content, "rust", &vec!["Foo".to_string()]);
    assert!(result.contains("// symbol: Foo"));
    // Should find either struct or impl
    assert!(result.contains("Foo"));
}

#[test]
fn test_extract_python_def() {
    let content =
        "def greet(name):\n    msg = 'Hello'\n    return msg\n\ndef other():\n    pass\n";

    let result = extract_symbols(content, "python", &vec!["greet".to_string()]);
    assert!(result.contains("// symbol: greet"));
    assert!(result.contains("def greet"));
    assert!(result.contains("Hello"));
    // Should not include other()
    assert!(!result.contains("def other"));
}

#[test]
fn test_extract_missing_symbol() {
    let content = "fn existing() {}";
    let result = extract_symbols(content, "rust", &vec!["nonexistent".to_string()]);
    assert!(result.contains("// symbol nonexistent: NOT FOUND"));
}

#[test]
fn test_extract_multiple_symbols() {
    let content = r#"
fn alpha() {
    println!("alpha");
}

fn beta() {
    println!("beta");
}
"#;
    let result = extract_symbols(content, "rust", &vec!["alpha".to_string(), "beta".to_string()]);
    assert!(result.contains("// symbol: alpha"));
    assert!(result.contains("// symbol: beta"));
    assert!(result.contains("println!(\"alpha\")"));
    assert!(result.contains("println!(\"beta\")"));
}

#[test]
fn test_line_range_limit_zero() {
    let content = "a\nb\nc";
    let (out, start, end) = apply_line_range(content, Some(0), Some(0));
    assert_eq!(out, "");
    assert_eq!(start, 1);
    assert_eq!(end, 1);
}

#[test]
fn test_extract_typescript_function() {
    let content = r#"
export async function fetchData(url: string): Promise<string> {
    const res = await fetch(url);
    return res.text();
}

export function unused() {}
"#;
    let result = extract_symbols(content, "typescript", &vec!["fetchData".to_string()]);
    assert!(result.contains("// symbol: fetchData"));
    assert!(result.contains("fetchData"));
    assert!(result.contains("fetch(url)"));
    assert!(!result.contains("unused"));
}

#[test]
fn test_extract_go_function() {
    let content = r#"
func Greet(name string) string {
    return "Hello, " + name
}

func Other() {}
"#;
    let result = extract_symbols(content, "go", &vec!["Greet".to_string()]);
    assert!(result.contains("// symbol: Greet"));
    assert!(result.contains("Hello"));
    assert!(!result.contains("Other"));
}

#[test]
fn read_files_with_offset_limit() {
    let content = "line1\nline2\nline3\nline4\nline5\n";

    let (sliced, start, end) = apply_line_range(content, Some(1), Some(2));

    assert_eq!(start, 2, "Start line should be 2 (1-based, offset 1)");
    assert_eq!(end, 3, "End line should be 3");
    assert_eq!(sliced, "line2\nline3", "Should return lines 2-3");
    assert!(!sliced.contains("line1"), "Should not contain line1");
    assert!(!sliced.contains("line5"), "Should not contain line5");
}

#[test]
fn read_files_offset_beyond_eof() {
    let content = "one\ntwo\n";

    let (sliced, start, end) = apply_line_range(content, Some(100), None);

    assert_eq!(start, 101, "Start should be offset+1 when beyond EOF");
    assert_eq!(end, 101, "End should match start when beyond EOF");
    assert!(
        sliced.is_empty(),
        "Should return empty content when offset beyond EOF"
    );
}

#[test]
fn read_files_with_symbol_extraction_rust() {
    let content = r#"
fn helper() {}

fn main() {
    println!("hello");
}

struct MyStruct;
"#;

    let result = extract_symbols(content, "rust", &vec!["main".to_string()]);
    assert!(result.contains("// symbol: main"), "Should extract symbol");
    assert!(result.contains("fn main()"), "Should contain main function");
}

#[test]
fn read_files_with_symbol_extraction_python() {
    let content = r#"
def helper():
    pass

def main():
    print("hello")

class MyClass:
    pass
"#;

    let result = extract_symbols(content, "python", &vec!["main".to_string()]);
    // Result format: "// symbol: main\n<extracted code>" OR "// symbol main: NOT FOUND"
    // The symbol marker should be present
    assert!(
        result.contains("symbol: main") || result.contains("symbol main:"),
        "Result should contain symbol marker: {}",
        result
    );
}

#[test]
fn read_files_missing_symbol() {
    let content = "fn real() {}";

    let result = extract_symbols(content, "rust", &vec!["nonexistent".to_string()]);
    assert!(result.contains("NOT FOUND"), "Should report missing symbol");
}

#[test]
fn read_files_single_file_limit_enforced() {
    // Create content that would exceed 512KB limit
    let big_content = "x".repeat(600 * 1024);

    // apply_line_range doesn't enforce limits, but the server does
    // Here we test that we can handle large content
    let (sliced, _, _) = apply_line_range(&big_content, None, None);
    assert_eq!(
        sliced.len(),
        big_content.len(),
        "Should return full content without truncation"
    );
}

#[test]
fn one_line_functions_are_told_apart() {
    let content = "fn a() {}\nfn b() {}";
    assert_eq!(
        extract_symbols(content, "rust", &vec!["b".to_string()]),
        "// symbol: b\nfn b() {}"
    );
    assert_eq!(
        extract_symbols(content, "rust", &vec!["a".to_string()]),
        "// symbol: a\nfn a() {}"
    );
}
