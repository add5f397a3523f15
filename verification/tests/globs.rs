//! Which of the paths that a pattern matches are files below a directory.

use weave_patch_mcp::reader::{select_matches, Candidate};

/// The files and links of a directory.
struct Dir {
    entries: Vec<(String, bool)>,
}

fn dir(files: &[&str], links: &[&str]) -> Dir {
    let mut entries: Vec<(String, bool)> = Vec::new();
    for f in files {
        entries.push((format!("/w/{}", f), true));
    }
    for l in links {
        entries.push((format!("/w/{}", l), false));
    }
    Dir { entries }
}

/// What a pattern selects in the directory, and one directory above.
fn expand_globs(dir: &Dir, pattern: &str) -> Vec<String> {
    let front = if pattern.starts_with("../") {
        format!("/{}", &pattern[3..])
    } else {
        format!("/w/{}", pattern)
    };
    let compiled = glob::Pattern::new(&front).unwrap();
    let options = glob::MatchOptions {
        case_sensitive: true,
        require_literal_separator: true,
        require_literal_leading_dot: false,
    };
    let candidates = dir
        .entries
        .iter()
        .filter(|(path, _)| compiled.matches_with(path, options))
        .map(|(path, is_file)| Candidate { path: path.clone(), is_file: *is_file })
        .collect();
    select_matches("/w", &candidates)
}

#[test]
fn test_glob_expansion() {
    let dir = dir(&["a.rs", "b.rs", "c.txt"], &[]);
    let matches = expand_globs(&dir, "*.rs");
    assert_eq!(matches.len(), 2);
    assert!(matches.iter().any(|p| p.ends_with("a.rs")));
    assert!(matches.iter().any(|p| p.ends_with("b.rs")));
}

#[test]
fn test_glob_rejects_symlink() {
    let dir = dir(&["real.rs"], &["link.rs"]);
    let matches = expand_globs(&dir, "*.rs");
    // Only real.rs should be returned; link.rs is a symlink
    assert!(!matches.iter().any(|p| p.contains("link")));
    assert!(matches.iter().any(|p| p.contains("real")));
}

#[test]
fn test_glob_no_matches() {
    let dir = dir(&[], &[]);
    let matches = expand_globs(&dir, "*.xyz");
    assert!(matches.is_empty());
}

#[test]
fn test_glob_rejects_traversal() {
    let mut dir = dir(&["a.rs"], &[]);
    dir.entries.push(("/outside.rs".to_string(), true));
    let paths = expand_globs(&dir, "../*.rs");
    assert!(paths.is_empty(), "traversal should yield no paths");
}

#[test]
fn read_single_file_success() {
    let dir = dir(&["test.txt"], &[]);
    let paths = expand_globs(&dir, "test.txt");
    assert_eq!(paths.len(), 1);
    assert_eq!(paths[0], "test.txt");
}

#[test]
fn read_single_file_not_found() {
    let dir = dir(&[], &[]);
    let paths = expand_globs(&dir, "nonexistent.txt");
    assert!(
        paths.is_empty(),
        "Should return empty for non-existent file"
    );
}

#[test]
fn read_single_file_symlink_rejected() {
    let dir = dir(&["real.txt"], &["link.txt"]);
    let paths = expand_globs(&dir, "*.txt");
    assert!(
        !paths.contains(&"link.txt".to_string()),
        "Should exclude symlinks"
    );
    assert!(
        paths.contains(&"real.txt".to_string()),
        "Should include real files"
    );
}

#[test]
fn read_files_glob_expansion() {
    let dir = dir(&["file1.txt", "file2.txt", "other.rs"], &[]);
    let paths = expand_globs(&dir, "*.txt");
    assert_eq!(paths.len(), 2);
    assert!(paths.contains(&"file1.txt".to_string()));
    assert!(paths.contains(&"file2.txt".to_string()));
    assert!(!paths.contains(&"other.rs".to_string()));
}

#[test]
fn read_files_glob_no_matches() {
    let dir = dir(&[], &[]);
    let paths = expand_globs(&dir, "*.nonexistent");
    assert!(paths.is_empty(), "Should return empty for no matches");
}

#[test]
fn read_files_total_size_limit_simulated() {
    let dir = dir(&["file0.txt", "file1.txt", "file2.txt"], &[]);
    let paths = expand_globs(&dir, "*.txt");
    assert_eq!(paths.len(), 3, "Should find all 3 files");
}

#[test]
fn the_selected_paths_are_sorted() {
    let dir = dir(&["b/z.rs", "b.rs", "a.rs", "b/a.rs", "A.rs"], &[]);
    assert_eq!(expand_globs(&dir, "*.rs"), vec!["A.rs", "a.rs", "b.rs"]);
    assert_eq!(expand_globs(&dir, "b/*.rs"), vec!["b/a.rs", "b/z.rs"]);
}

#[test]
fn files_below_a_drive_are_selected() {
    let file = |path: &str| Candidate { path: path.to_string(), is_file: true };
    let list = vec![file("\\\\?\\C:\\w\\b\\x.rs"), file("\\\\?\\C:\\w\\a.rs"), file("\\\\?\\C:\\v\\c.rs")];
    assert_eq!(select_matches("\\\\?\\C:\\w", &list), vec!["a.rs", "b/x.rs"]);
}
