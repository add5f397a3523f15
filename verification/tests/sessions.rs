//! Patches and batches on files in memory.

use std::collections::BTreeMap;

use weave_patch_mcp::applier::{apply_patch, check_symlink, files_to_commit, mark_commit_failed};
use weave_patch_mcp::applier::{OpResult, OpStatus, PatchResult, PatchSession};
use weave_patch_mcp::batch::{execute_batch, finish_batch, pending_changes, ExecutionReport};
use weave_patch_mcp::error::PatchError;
use weave_patch_mcp::parser::{parse_patch, DiffLine, FileOp, Hunk};
use weave_patch_mcp::patch_utils::format_outcome_summary;
use weave_patch_mcp::paths::join_path;
use weave_patch_mcp::report::{render_error_text, render_text_report};
use weave_patch_mcp::server::{
    attach_warnings, places_to_observe, read_request, BatchExecParams,
};
use weave_patch_mcp::transaction::{
    backup_path_for, next_steps, plan_commit, plan_with, shadow_path_for, steps_of_phase, Phase, Step,
};
use weave_patch_mcp::workspace::{DiskEntry, Node, StagedFile};

// ---------------------------------------------------------------------------
// Files in memory
// ---------------------------------------------------------------------------

/// A working directory and what is around it.
struct Dir {
    base: String,
    files: BTreeMap<String, Vec<u8>>,
    dirs: Vec<String>,
    links: Vec<String>,
    /// Files that cannot be replaced.
    locked: Vec<String>,
}

fn tmp() -> Dir {
    Dir {
        base: "/home/work/dir".to_string(),
        files: BTreeMap::new(),
        dirs: vec!["/home/work/dir".to_string()],
        links: Vec::new(),
        locked: Vec::new(),
    }
}

/// The status of a result; all errors are one.
fn status(op: &OpResult) -> &'static str {
    if op.status.is_error() {
        "error"
    } else {
        op.status.as_str()
    }
}

/// A path without `..`.
fn plain(path: &str) -> String {
    let mut parts: Vec<&str> = Vec::new();
    for part in path.split('/') {
        match part {
            "" | "." => {}
            ".." => {
                parts.pop();
            }
            other => parts.push(other),
        }
    }
    format!("/{}", parts.join("/"))
}

impl Dir {
    fn full(&self, path: &str) -> String {
        plain(&join_path(&self.base, path))
    }

    fn write(&mut self, path: impl AsRef<str>, content: impl AsRef<[u8]>) {
        let full = self.full(path.as_ref());
        self.files.insert(full, content.as_ref().to_vec());
    }

    fn make_dir(&mut self, path: &str) {
        let full = self.full(path);
        self.dirs.push(full);
    }

    fn link(&mut self, path: &str) {
        let full = self.full(path);
        self.links.push(full);
    }

    fn lock(&mut self, path: &str) {
        let full = self.full(path);
        self.locked.push(full);
    }

    fn unlock(&mut self, path: &str) {
        let full = self.full(path);
        self.locked.retain(|p| *p != full);
    }

    fn has(&self, path: &str) -> bool {
        self.files.contains_key(&self.full(path))
    }

    fn read(&self, path: impl AsRef<str>) -> String {
        String::from_utf8(self.files[&self.full(path.as_ref())].clone()).unwrap()
    }

    /// The names of the files of the working directory.
    fn names(&self) -> Vec<String> {
        let front = format!("{}/", self.base);
        self.files
            .keys()
            .filter_map(|p| p.strip_prefix(front.as_str()))
            .map(|p| p.to_string())
            .collect()
    }

    /// What a plain path is.
    fn node(&self, path: &str) -> Option<Node> {
        let front = format!("{}/", path);
        if self.links.iter().any(|l| l == path) {
            Some(Node::Symlink)
        } else if let Some(content) = self.files.get(path) {
            Some(Node::File(content.clone()))
        } else if self.dirs.iter().any(|d| d == path)
            || self.files.keys().any(|f| f.starts_with(&front))
        {
            Some(Node::Directory("Is a directory (os error 21)".to_string()))
        } else {
            None
        }
    }

    /// What the operations need to know of the disk.
    fn disk(&self, home: &Option<String>, ops: &Vec<FileOp>) -> Vec<DiskEntry> {
        let mut entries = Vec::new();
        for place in places_to_observe(&self.base, home, ops) {
            let at = plain(&place.path);
            let mut paths = vec![at.clone()];
            if place.depth.is_some() {
                let front = format!("{}/", at);
                for path in self.files.keys().chain(self.dirs.iter()).chain(self.links.iter()) {
                    if let Some(rest) = path.strip_prefix(front.as_str()) {
                        for (k, _) in rest.match_indices('/') {
                            paths.push(format!("{}{}", front, &rest[..k]));
                        }
                        paths.push(path.clone());
                    }
                }
            }
            for path in paths {
                if let Some(node) = self.node(&path) {
                    let path = format!("{}{}", place.path, &path[at.len()..]);
                    entries.push(DiskEntry { path, node });
                }
            }
        }
        entries
    }

    fn run(&mut self, step: &Step) -> Result<(), String> {
        match step {
            Step::Nothing => {}
            Step::WriteShadow { path, content } => {
                self.files.insert(plain(path), content.clone());
            }
            Step::Backup { target, backup } => {
                let content = self.files[&plain(target)].clone();
                self.files.insert(plain(backup), content);
            }
            Step::Rename { shadow, target } => {
                if self.locked.contains(&plain(target)) {
                    return Err(format!("{} is locked", target));
                }
                let content = self.files.remove(&plain(shadow)).unwrap();
                self.files.insert(plain(target), content);
            }
            Step::Remove { target } => {
                if self.locked.contains(&plain(target)) {
                    return Err(format!("{} is locked", target));
                }
                self.files.remove(&plain(target));
            }
            Step::Restore { backup, target } => {
                let content = self.files.remove(&plain(backup)).unwrap();
                self.files.insert(plain(target), content);
            }
            Step::Discard { path } => {
                self.files.remove(&plain(path));
            }
        }
        Ok(())
    }

    fn commit(&mut self, session: &PatchSession, files: &Vec<StagedFile>) -> Result<(), String> {
        let plan = plan_commit(session, files).map_err(|e| e.message())?;
        let mut phase = Phase::Shadow;
        let mut steps = steps_of_phase(&plan, phase);
        loop {
            let mut done = 0;
            let mut problem = None;
            while done < steps.len() && problem.is_none() {
                match self.run(&steps[done]) {
                    Ok(()) => done += 1,
                    Err(e) => problem = Some(e),
                }
            }
            let (next, to) = next_steps(&plan, phase, done, problem.is_some());
            match to {
                Some(later) => {
                    phase = later;
                    steps = next;
                }
                None => {
                    for step in &next {
                        self.run(step).unwrap();
                    }
                    return problem.map_or(Ok(()), Err);
                }
            }
        }
    }

    fn apply(&mut self, ops: Vec<FileOp>) -> PatchResult {
        let disk = self.disk(&None, &ops);
        let mut session = PatchSession::new(self.base.clone(), None, None, disk);
        let result = apply_patch(&mut session, &ops);
        let files = files_to_commit(&session, &result);
        match self.commit(&session, &files) {
            Ok(()) => result,
            Err(e) => mark_commit_failed(result, &e),
        }
    }

    fn batch(&mut self, params: &BatchExecParams) -> Result<ExecutionReport, String> {
        let request = read_request(params)?;
        let home = Some("/home/someone".to_string());
        let disk = self.disk(&home, &request.ops);
        let mut session = PatchSession::new(self.base.clone(), home, request.threshold, disk);
        let execution = execute_batch(&mut session, &request.ops);
        let files = pending_changes(&session, &execution, params.dry_run);
        let problem = self.commit(&session, &files).err();
        Ok(finish_batch(execution, params.dry_run, problem))
    }
}

fn params(patch: &str) -> BatchExecParams {
    BatchExecParams {
        patch: patch.to_string(),
        threshold: None,
        dry_run: false,
        response_format: None,
    }
}

#[test]
fn test_create_file() {
    let mut dir = tmp();
    let ops = vec![FileOp::Add {
        path: "hello.txt".to_string(),
        content: "hello\nworld\n".to_string(),
    }];
    let result = dir.apply(ops);
    assert_eq!(status(&result.operations[0]), "ok");
    assert_eq!(
        dir.read("hello.txt"),
        "hello\nworld\n"
    );
}

#[test]
fn test_create_file_has_diff() {
    let mut dir = tmp();
    let ops = vec![FileOp::Add {
        path: "hello.txt".to_string(),
        content: "hello\nworld\n".to_string(),
    }];
    let result = dir.apply(ops);
    assert!(result.operations[0].diff.is_some());
    let diff = result.operations[0].diff.as_ref().unwrap();
    assert!(diff.contains("--- /dev/null"));
    assert!(diff.contains("+++ hello.txt"));
    assert!(diff.contains("+hello"));
    assert!(diff.contains("+world"));
}

#[test]
fn test_create_file_nested() {
    let mut dir = tmp();
    let ops = vec![FileOp::Add {
        path: "a/b/c.txt".to_string(),
        content: "nested\n".to_string(),
    }];
    let result = dir.apply(ops);
    assert_eq!(status(&result.operations[0]), "ok");
    assert!(dir.has("a/b/c.txt"));
}

#[test]
fn test_delete_file() {
    let mut dir = tmp();
    let file_path = "target.txt";
    dir.write(file_path, "content");

    let ops = vec![FileOp::Delete {
        path: "target.txt".to_string(),
    }];
    let result = dir.apply(ops);
    assert_eq!(status(&result.operations[0]), "ok");
    assert!(!dir.has(file_path));
}

#[test]
fn test_delete_file_has_line_changes() {
    let mut dir = tmp();
    let content = "line1\nline2\nline3\nline4\n";
    let file_path = "target.txt";
    dir.write(file_path, content);

    let ops = vec![FileOp::Delete {
        path: "target.txt".to_string(),
    }];
    let result = dir.apply(ops);
    assert_eq!(status(&result.operations[0]), "ok");
    assert_eq!(result.operations[0].line_changes, Some((4, 0)));
    assert!(result.operations[0].message.contains("removed 4 lines"));
}

#[test]
fn test_update_file_single_hunk() {
    let mut dir = tmp();
    let file_path = "code.rs";
    dir.write(file_path, "fn foo() {\n    old_impl()\n}\n");

    let ops = vec![FileOp::Update {
        path: "code.rs".to_string(),
        hunks: vec![Hunk {
            context_hint: None,
            lines: vec![
                DiffLine::Context("fn foo() {".to_string()),
                DiffLine::Remove("    old_impl()".to_string()),
                DiffLine::Add("    new_impl()".to_string()),
                DiffLine::Context("}".to_string()),
            ],
        }],
        move_to: None,
    }];
    let result = dir.apply(ops);
    assert_eq!(
        status(&result.operations[0]), "ok",
        "{}",
        result.operations[0].message
    );
    let content = dir.read(file_path);
    assert_eq!(content, "fn foo() {\n    new_impl()\n}\n");
}

#[test]
fn test_update_file_has_diff_and_match_info() {
    let mut dir = tmp();
    let file_path = "code.rs";
    dir.write(file_path, "fn foo() {\n    old_impl()\n}\n");

    let ops = vec![FileOp::Update {
        path: "code.rs".to_string(),
        hunks: vec![Hunk {
            context_hint: None,
            lines: vec![
                DiffLine::Context("fn foo() {".to_string()),
                DiffLine::Remove("    old_impl()".to_string()),
                DiffLine::Add("    new_impl()".to_string()),
                DiffLine::Context("}".to_string()),
            ],
        }],
        move_to: None,
    }];
    let result = dir.apply(ops);
    assert_eq!(status(&result.operations[0]), "ok");

    // Should have diff
    assert!(result.operations[0].diff.is_some());
    let diff = result.operations[0].diff.as_ref().unwrap();
    assert!(diff.contains("--- code.rs"));
    assert!(diff.contains("+++ code.rs"));
    assert!(diff.contains("-    old_impl()"));
    assert!(diff.contains("+    new_impl()"));

    // Should have line_changes
    assert_eq!(result.operations[0].line_changes, Some((3, 3)));

    // Should have match_info
    assert!(result.operations[0].match_info.is_some());
    let mi = result.operations[0].match_info.as_ref().unwrap();
    assert!(mi.contains("exact"));
}

#[test]
fn test_update_file_multiple_hunks() {
    let mut dir = tmp();
    let file_path = "code.rs";
    dir.write(file_path,
        "fn a() {\n    old_a()\n}\n\nfn b() {\n    old_b()\n}\n",
    );

    let ops = vec![FileOp::Update {
        path: "code.rs".to_string(),
        hunks: vec![
            Hunk {
                context_hint: None,
                lines: vec![
                    DiffLine::Context("fn a() {".to_string()),
                    DiffLine::Remove("    old_a()".to_string()),
                    DiffLine::Add("    new_a()".to_string()),
                    DiffLine::Context("}".to_string()),
                ],
            },
            Hunk {
                context_hint: None,
                lines: vec![
                    DiffLine::Context("fn b() {".to_string()),
                    DiffLine::Remove("    old_b()".to_string()),
                    DiffLine::Add("    new_b()".to_string()),
                    DiffLine::Context("}".to_string()),
                ],
            },
        ],
        move_to: None,
    }];
    let result = dir.apply(ops);
    assert_eq!(
        status(&result.operations[0]), "ok",
        "{}",
        result.operations[0].message
    );
    let content = dir.read(file_path);
    assert_eq!(
        content,
        "fn a() {\n    new_a()\n}\n\nfn b() {\n    new_b()\n}\n"
    );

    // Multi-hunk should have match_info with "Hunk 1" and "Hunk 2"
    let mi = result.operations[0].match_info.as_ref().unwrap();
    assert!(mi.contains("Hunk 1"));
    assert!(mi.contains("Hunk 2"));
}

#[test]
fn test_error_file_not_found_for_update() {
    let mut dir = tmp();
    let ops = vec![FileOp::Update {
        path: "nonexistent.rs".to_string(),
        hunks: vec![],
        move_to: None,
    }];
    let result = dir.apply(ops);
    assert_eq!(status(&result.operations[0]), "error");
    assert!(
        result.operations[0].message.contains("not found")
            || result.operations[0].message.contains("File not found")
    );
}

#[test]
fn test_error_context_not_found() {
    let mut dir = tmp();
    let file_path = "code.rs";
    dir.write(file_path, "fn foo() {}\n");

    let ops = vec![FileOp::Update {
        path: "code.rs".to_string(),
        hunks: vec![Hunk {
            context_hint: None,
            lines: vec![
                DiffLine::Context("this_does_not_exist".to_string()),
                DiffLine::Remove("whatever".to_string()),
                DiffLine::Add("replacement".to_string()),
            ],
        }],
        move_to: None,
    }];
    let result = dir.apply(ops);
    assert_eq!(status(&result.operations[0]), "error");
    assert!(
        result.operations[0].message.contains("Context not found")
            || result.operations[0].message.contains("locate hunk")
    );
}

#[test]
fn test_multi_file_patch() {
    let mut dir = tmp();
    let existing = "existing.txt";
    dir.write(existing, "line1\nline2\nline3\n");

    let ops = vec![
        FileOp::Add {
            path: "new.txt".to_string(),
            content: "new content\n".to_string(),
        },
        FileOp::Delete {
            path: "existing.txt".to_string(),
        },
    ];
    let result = dir.apply(ops);
    assert_eq!(status(&result.operations[0]), "ok");
    assert_eq!(status(&result.operations[1]), "ok");
    assert!(dir.has("new.txt"));
    assert!(!dir.has(existing));
}

#[test]
fn test_path_traversal_add_now_allowed() {
    let mut dir = tmp();
    let ops = vec![FileOp::Add {
        path: "../outside_file.txt".to_string(),
        content: "content\n".to_string(),
    }];
    let result = dir.apply(ops);
    // The operation should succeed or fail with a different error (not traversal)
    if status(&result.operations[0]) == "ok" {
        // Successfully created file outside base dir
        assert!(dir.has("../outside_file.txt"));
    } else {
        // Should NOT be a traversal error
        assert!(!result.operations[0].message.contains("traversal"));
        assert!(!result.operations[0].message.contains("escapes"));
    }
}

#[test]
fn test_path_traversal_delete_now_allowed() {
    let mut dir = tmp();
    // Create a sibling file to delete
    let sibling_file = "../sibling_to_delete.txt";
    dir.write(sibling_file, "content");

    let ops = vec![FileOp::Delete {
        path: "../sibling_to_delete.txt".to_string(),
    }];
    let result = dir.apply(ops);
    // Should succeed in deleting the sibling file
    assert_eq!(
        status(&result.operations[0]), "ok",
        "Expected ok, got: {}",
        result.operations[0].message
    );
    assert!(!dir.has(sibling_file), "Sibling file should be deleted");
}

#[test]
fn test_absolute_path_add_now_allowed() {
    let mut dir = tmp();
    let unique_name = "/tmp/patch_test.txt".to_string();
    let ops = vec![FileOp::Add {
        path: unique_name.clone(),
        content: "test content\n".to_string(),
    }];
    let result = dir.apply(ops);
    // Should succeed (or fail with permission error, not traversal)
    assert_eq!(status(&result.operations[0]), "ok");
    assert_eq!(dir.read(&unique_name), "test content\n");
    // Should NOT be an absolute path rejection error
    assert!(
        !result.operations[0]
            .message
            .contains("absolute path rejected")
    );
}

#[test]
fn test_symlink_delete_rejected() {
    let mut dir = tmp();
    let real_file = "real.txt";
    let link_file = "link.txt";
    dir.write(real_file, "content");
    dir.link(link_file);

    let ops = vec![FileOp::Delete {
        path: "link.txt".to_string(),
    }];
    let result = dir.apply(ops);
    assert_eq!(status(&result.operations[0]), "error");
    assert!(
        result.operations[0].message.contains("ymlink"),
        "expected symlink error, got: {}",
        result.operations[0].message
    );
    // Real file must be untouched
    assert!(dir.has(real_file));
}

#[test]
fn test_symlink_update_rejected() {
    let mut dir = tmp();
    let real_file = "real.rs";
    let link_file = "link.rs";
    dir.write(real_file, "fn foo() {}\n");
    dir.link(link_file);

    let ops = vec![FileOp::Update {
        path: "link.rs".to_string(),
        hunks: vec![Hunk {
            context_hint: None,
            lines: vec![
                DiffLine::Context("fn foo() {}".to_string()),
                DiffLine::Add("fn bar() {}".to_string()),
            ],
        }],
        move_to: None,
    }];
    let result = dir.apply(ops);
    assert_eq!(status(&result.operations[0]), "error");
    assert!(
        result.operations[0].message.contains("ymlink"),
        "expected symlink error, got: {}",
        result.operations[0].message
    );
}

#[test]
fn test_nested_path_traversal_now_allowed() {
    let mut dir = tmp();
    // Create the subdirectory so the first component resolves
    dir.make_dir("sub");
    let ops = vec![FileOp::Add {
        path: "sub/../escape.txt".to_string(),
        content: "content\n".to_string(),
    }];
    let result = dir.apply(ops);
    // Should succeed - file created inside the temp dir
    assert_eq!(
        status(&result.operations[0]), "ok",
        "Expected ok, got: {}",
        result.operations[0].message
    );
    assert!(dir.has("escape.txt"));
}

#[test]
fn test_backslash_path_now_allowed() {
    let mut dir = tmp();
    // On Unix, backslash is treated as part of the filename, not a path separator
    let ops = vec![FileOp::Add {
        path: "sub\\file.txt".to_string(), // Creates file named "sub\file.txt"
        content: "content\n".to_string(),
    }];
    let result = dir.apply(ops);
    // Should succeed (creates file with backslash in name on Unix)
    assert_eq!(status(&result.operations[0]), "ok");
    assert_eq!(dir.read("sub\\file.txt"), "content\n");
    // Should NOT be an absolute path rejection error
    assert!(
        !result.operations[0]
            .message
            .contains("absolute path rejected")
    );
}

#[test]
fn test_fuzzy_match_normalized_whitespace() {
    let mut dir = tmp();
    let file_path = "code.rs";
    // File has exact spacing
    dir.write(file_path, "fn foo() {\n    let x = 1;\n}\n");

    let ops = vec![FileOp::Update {
        path: "code.rs".to_string(),
        hunks: vec![Hunk {
            context_hint: None,
            lines: vec![
                // Pattern with extra space and missing space before brace — Phase 2 normalizes
                DiffLine::Context("fn  foo(){".to_string()),
                DiffLine::Context("    let x = 1;".to_string()),
                DiffLine::Remove("}".to_string()),
                DiffLine::Add("} // end".to_string()),
            ],
        }],
        move_to: None,
    }];
    let result = dir.apply(ops);
    assert_eq!(
        status(&result.operations[0]), "ok",
        "Phase 2 normalized match should succeed: {}",
        result.operations[0].message
    );
    let content = dir.read("code.rs");
    assert!(content.contains("} // end"));

    // Match falls through to fuzzy since spacing differs beyond normalization
    let mi = result.operations[0].match_info.as_ref().unwrap();
    assert!(
        mi.contains("fuzzy:") || mi.contains("normalized"),
        "match_info should show match type, got: {mi}"
    );
}

#[test]
fn test_fuzzy_match_similarity_threshold() {
    let mut dir = tmp();
    let file_path = "code.rs";
    // File has one line that differs slightly from pattern
    dir.write(file_path,
        "fn compute() {
    let result = foo();
    let value = result * 2;
    result
}
",
    );

    let ops = vec![FileOp::Update {
        path: "code.rs".to_string(),
        hunks: vec![Hunk {
            context_hint: None,
            lines: vec![
                DiffLine::Context("fn compute() {".to_string()),
                // "bar" instead of "foo" -- single token differs
                DiffLine::Context("    let result = bar();".to_string()),
                DiffLine::Context("    let value = result * 2;".to_string()),
                DiffLine::Remove("    result".to_string()),
                DiffLine::Add("    result + 1".to_string()),
            ],
        }],
        move_to: None,
    }];
    let result = dir.apply(ops);
    assert_eq!(
        status(&result.operations[0]), "ok",
        "Phase 3 fuzzy match should succeed: {}",
        result.operations[0].message
    );
    let content = dir.read("code.rs");
    assert!(content.contains("result + 1"));

    // Should report fuzzy match type
    let mi = result.operations[0].match_info.as_ref().unwrap();
    assert!(mi.contains("fuzzy:"));
}

#[test]
fn test_short_pattern_no_fuzzy() {
    let mut dir = tmp();
    let file_path = "code.rs";
    // 2-line pattern — Phase 3 must NOT activate (pattern.len() < 3)
    dir.write(file_path, "let a = 1;\nlet b = 2;\nlet c = 3;\n");

    let ops = vec![FileOp::Update {
        path: "code.rs".to_string(),
        hunks: vec![Hunk {
            context_hint: None,
            lines: vec![
                // 2 context lines that won't exact or normalized match
                DiffLine::Context("let  a = 999;".to_string()),
                DiffLine::Remove("let b = 2;".to_string()),
                DiffLine::Add("let b = 99;".to_string()),
            ],
        }],
        move_to: None,
    }];
    let result = dir.apply(ops);
    // Should fail — fuzzy must not run for 2-line patterns (context only = 1 line before Remove)
    assert_eq!(
        status(&result.operations[0]), "error",
        "Short 2-line pattern must not fuzzy match"
    );
}

#[test]
fn test_large_file_fuzzy_skipped() {
    let mut dir = tmp();
    let file_path = "big.rs";
    // 2001 lines — fuzzy must be skipped
    let content: String = (0..2001).map(|i| format!("line_{}\n", i)).collect();
    dir.write(file_path, &content);

    let ops = vec![FileOp::Update {
        path: "big.rs".to_string(),
        hunks: vec![Hunk {
            context_hint: None,
            lines: vec![
                // Pattern that won't exact or normalized match
                DiffLine::Context("line_XXXX".to_string()),
                DiffLine::Context("line_YYYY".to_string()),
                DiffLine::Context("line_ZZZZ".to_string()),
                DiffLine::Remove("line_AAAA".to_string()),
                DiffLine::Add("replaced".to_string()),
            ],
        }],
        move_to: None,
    }];
    let result = dir.apply(ops);
    // Should fail — fuzzy skipped for large files
    assert_eq!(
        status(&result.operations[0]), "error",
        "Large file must not fuzzy match: {}",
        result.operations[0].message
    );
}

#[test]
fn test_cross_file_atomicity_rollback() {
    let mut dir = tmp();
    // File1 is valid and patchable
    let file1 = "file1.txt";
    dir.write(file1, "hello\nworld\n");
    // File2 does NOT exist — second op will fail
    let ops = vec![
        FileOp::Update {
            path: "file1.txt".to_string(),
            hunks: vec![Hunk {
                context_hint: None,
                lines: vec![
                    DiffLine::Context("hello".to_string()),
                    DiffLine::Remove("world".to_string()),
                    DiffLine::Add("earth".to_string()),
                ],
            }],
            move_to: None,
        },
        FileOp::Update {
            path: "nonexistent.txt".to_string(),
            hunks: vec![],
            move_to: None,
        },
    ];
    let result = dir.apply(ops);
    // Op1 staged ok, op2 failed
    assert_eq!(status(&result.operations[0]), "ok");
    assert_eq!(status(&result.operations[1]), "error");
    // file1 must be UNCHANGED because commit was rolled back
    let content = dir.read(file1);
    assert_eq!(
        content, "hello\nworld\n",
        "file1 must be unchanged after failed atomic patch"
    );
    // No shadow files should remain
    let shadow_count = dir.names().iter().filter(|n| n.contains("patch_tmp")).count();
    assert_eq!(shadow_count, 0, "shadow files must be cleaned up");
}

#[test]
fn test_shadow_file_cleaned_up_on_failure() {
    let mut dir = tmp();
    let file1 = "a.txt";
    dir.write(file1, "line1\nline2\n");

    let ops = vec![
        FileOp::Update {
            path: "a.txt".to_string(),
            hunks: vec![Hunk {
                context_hint: None,
                lines: vec![
                    DiffLine::Context("line1".to_string()),
                    DiffLine::Remove("line2".to_string()),
                    DiffLine::Add("replaced".to_string()),
                ],
            }],
            move_to: None,
        },
        FileOp::Update {
            path: "missing.txt".to_string(),
            hunks: vec![],
            move_to: None,
        },
    ];
    let _ = dir.apply(ops);

    // No .patch_tmp files in the tmp dir
    let remaining: Vec<String> = dir
        .names()
        .into_iter()
        .filter(|n| n.ends_with("patch_tmp"))
        .collect();
    assert!(
        remaining.is_empty(),
        "shadow files leaked: {:?}",
        remaining
    );
}

#[test]
fn test_cross_file_atomicity_success() {
    let mut dir = tmp();
    dir.write("f1.txt", "alpha\nbeta\n");
    dir.write("f2.txt", "gamma\ndelta\n");
    dir.write("f3.txt", "epsilon\nzeta\n");

    let ops = vec![
        FileOp::Update {
            path: "f1.txt".to_string(),
            hunks: vec![Hunk {
                context_hint: None,
                lines: vec![
                    DiffLine::Context("alpha".to_string()),
                    DiffLine::Remove("beta".to_string()),
                    DiffLine::Add("BETA".to_string()),
                ],
            }],
            move_to: None,
        },
        FileOp::Update {
            path: "f2.txt".to_string(),
            hunks: vec![Hunk {
                context_hint: None,
                lines: vec![
                    DiffLine::Context("gamma".to_string()),
                    DiffLine::Remove("delta".to_string()),
                    DiffLine::Add("DELTA".to_string()),
                ],
            }],
            move_to: None,
        },
        FileOp::Update {
            path: "f3.txt".to_string(),
            hunks: vec![Hunk {
                context_hint: None,
                lines: vec![
                    DiffLine::Context("epsilon".to_string()),
                    DiffLine::Remove("zeta".to_string()),
                    DiffLine::Add("ZETA".to_string()),
                ],
            }],
            move_to: None,
        },
    ];
    let result = dir.apply(ops);
    assert!(result.operations.iter().all(|o| status(o) == "ok"));
    assert_eq!(
        dir.read("f1.txt"),
        "alpha\nBETA\n"
    );
    assert_eq!(
        dir.read("f2.txt"),
        "gamma\nDELTA\n"
    );
    assert_eq!(
        dir.read("f3.txt"),
        "epsilon\nZETA\n"
    );
}

#[test]
fn test_structured_error_closest_matches() {
    let mut dir = tmp();
    let file_path = "code.rs";
    dir.write(file_path, "fn hello() {}\nfn world() {}\nfn greet() {}\n");

    let ops = vec![FileOp::Update {
        path: "code.rs".to_string(),
        hunks: vec![Hunk {
            context_hint: None,
            lines: vec![
                DiffLine::Context("fn totally_different_name() {}".to_string()),
                DiffLine::Remove("fn nothing_here() {}".to_string()),
                DiffLine::Add("fn replaced() {}".to_string()),
            ],
        }],
        move_to: None,
    }];
    let result = dir.apply(ops);
    assert_eq!(status(&result.operations[0]), "error");
    // The error message should contain "Context not found"
    assert!(
        result.operations[0].message.contains("Context not found"),
        "got: {}",
        result.operations[0].message
    );
}

#[test]
fn test_read_file_validates_path() {
    let mut dir = tmp();
    dir.write("test.txt", "Hello");

    let ops = vec![FileOp::Read {
        path: "test.txt".to_string(),
        symbols: None,
        language: None,
        offset: None,
        limit: None,
    }];
    let result = dir.apply(ops);
    assert_eq!(result.operations.len(), 1);
    assert_eq!(status(&result.operations[0]), "ok");
    assert_eq!(result.operations[0].op_type, "read");
}

#[test]
fn test_read_file_not_found() {
    let mut dir = tmp();
    let ops = vec![FileOp::Read {
        path: "nonexistent.txt".to_string(),
        symbols: None,
        language: None,
        offset: None,
        limit: None,
    }];
    let result = dir.apply(ops);
    assert_eq!(result.operations.len(), 1);
    assert_eq!(status(&result.operations[0]), "error");
    assert_eq!(result.operations[0].op_type, "read");
}

#[test]
fn test_read_file_symlink_rejected() {
    let mut dir = tmp();
    let target = "target.txt";
    let link = "link.txt";
    dir.write(target, "Hello");
    dir.link(link);

    let ops = vec![FileOp::Read {
        path: "link.txt".to_string(),
        symbols: None,
        language: None,
        offset: None,
        limit: None,
    }];
    let result = dir.apply(ops);
    assert_eq!(result.operations.len(), 1);
    assert_eq!(status(&result.operations[0]), "error");
    assert!(result.operations[0].message.contains("Symlink"));
}

#[test]
fn test_read_file_path_traversal_now_allowed() {
    let mut dir = tmp();
    // Create a sibling file to read
    let sibling_file = "../outside_read.txt";
    dir.write(sibling_file, "Hello from outside");

    let ops = vec![FileOp::Read {
        path: "../outside_read.txt".to_string(),
        symbols: None,
        language: None,
        offset: None,
        limit: None,
    }];
    let result = dir.apply(ops);
    // Should succeed in reading the sibling file
    assert_eq!(result.operations.len(), 1);
    assert_eq!(
        status(&result.operations[0]), "ok",
        "Expected ok, got: {}",
        result.operations[0].message
    );
}

#[test]
fn test_hint_disambiguates_identical_code() {
    let mut dir = tmp();
    dir.write("multi.py",
        "def function_a():\n    x = 1\n    print(\"hello\")\n    return x\n\ndef function_b():\n    x = 1\n    print(\"hello\")\n    return x\n",
    );

    let input = [
        "*** Begin Patch\n",
        "*** Update File: multi.py\n",
        "@@ def function_b\n",
        "      x = 1\n",
        "      print(\"hello\")\n",
        "-    return x\n",
        "+    return x + 1\n",
        "*** End Patch",
    ]
    .concat();

    let ops = parse_patch(&input).unwrap().ops;
    let result = dir.apply(ops);
    assert_eq!(
        status(&result.operations[0]), "ok",
        "Hint should disambiguate to function_b: {}",
        result.operations[0].message
    );

    let content = dir.read("multi.py");

    assert!(
        content.contains("def function_a()"),
        "function_a should still exist, got:\n{content}"
    );
    assert!(
        content.contains("def function_a():\n    x = 1\n    print(\"hello\")\n    return x\n"),
        "function_a must be completely unchanged, got:\n{content}"
    );

    assert!(
        content.contains("def function_b():\n    x = 1\n    print(\"hello\")\n    return x + 1\n"),
        "function_b must have 'return x + 1', got:\n{content}"
    );
}

#[test]
fn test_py_nested_indentation_patch() {
    let mut dir = tmp();
    dir.write("nested.py",
        "def process(data):\n    if data:\n        if data.get(\"key\"):\n            result = data[\"key\"]\n            print(f\"Found: {result}\")\n            return result\n        return None\n    return None\n",
    );

    let input = [
        "*** Begin Patch\n",
        "*** Update File: nested.py\n",
        "@@ def process(data):\n",
        "      if data:\n",
        "          if data.get(\"key\"):\n",
        "              result = data[\"key\"]\n",
        "-            print(f\"Found: {result}\")\n",
        "+            print(f\"Value: {result}\")\n",
        "              return result\n",
        "*** End Patch",
    ]
    .concat();

    let ops = parse_patch(&input).unwrap().ops;
    let result = dir.apply(ops);
    assert_eq!(
        status(&result.operations[0]), "ok",
        "Nested indent patch should succeed: {}",
        result.operations[0].message
    );

    let content = dir.read("nested.py");
    assert!(
        content.contains("print(f\"Value: {result}\")"),
        "Should contain new 'Value:' text, got:\n{content}"
    );
    assert!(
        !content.contains("print(f\"Found:"),
        "Old 'Found:' should be gone, got:\n{content}"
    );
    assert!(
        content.contains("        if data.get(\"key\")"),
        "8-space indent for nested if preserved, got:\n{content}"
    );
    assert!(
        content.contains("            result = data[\"key\"]"),
        "12-space indent for result assignment preserved, got:\n{content}"
    );
    assert!(
        content.contains("            print(f\"Value: {result}\")"),
        "Changed line has correct 12-space indent, got:\n{content}"
    );
}

#[test]
fn test_crlf_line_endings_patch() {
    let mut dir = tmp();
    let path = "crlf.py";
    dir.write(path,
        "def greet():\r\n    print(\"hello\")\r\n    return True\r\n",
    );

    let input = [
        "*** Begin Patch\n",
        "*** Update File: crlf.py\n",
        "  def greet():\n",
        "-    print(\"hello\")\n",
        "+    print(\"Hello, World!\")\n",
        "      return True\n",
        "*** End Patch",
    ]
    .concat();

    let ops = parse_patch(&input).unwrap().ops;
    let result = dir.apply(ops);
    assert_eq!(
        status(&result.operations[0]), "ok",
        "CRLF patch should succeed after normalization: {}",
        result.operations[0].message
    );

    let content = dir.read(path);
    assert!(
        content.contains("print(\"Hello, World!\")"),
        "Should contain updated greeting, got:\n{content}"
    );
    assert!(
        !content.contains("print(\"hello\")"),
        "Old greeting should be replaced, got:\n{content}"
    );
}

#[test]
fn test_context_not_found_has_diagnostics() {
    let mut dir = tmp();
    dir.write("diagnostic.py",
        "def foo():\n    x = 1\n    return x\n",
    );

    let input = [
        "*** Begin Patch\n",
        "*** Update File: diagnostic.py\n",
        "@@ def bar\n",
        " nonexistent line\n",
        "-also missing\n",
        "+replacement\n",
        "*** End Patch",
    ]
    .concat();

    let ops = parse_patch(&input).unwrap().ops;
    let result = dir.apply(ops);
    assert_eq!(
        status(&result.operations[0]), "error",
        "Non-existent context should fail, got: {}",
        result.operations[0].message
    );

    let msg = &result.operations[0].message;

    assert!(
        msg.contains("file has") && msg.contains("lines"),
        "Error should include total line count (e.g. 'file has X lines'), got: {msg}"
    );

    assert!(
        msg.contains("Hint"),
        "Error should include hint info (e.g. 'Hint attempted'), got: {msg}"
    );
    assert!(
        msg.contains("def bar"),
        "Error should show the attempted hint text, got: {msg}"
    );

    assert!(
        msg.contains("Nearest") || msg.contains("File preview"),
        "Error should include file excerpt, got: {msg}"
    );
    assert!(
        msg.contains("def foo"),
        "Excerpt should show actual file content, got: {msg}"
    );
}

#[test]
fn patch_empty_file_creation() {
    let mut dir = tmp();

    let input = [
        "*** Begin Patch\n",
        "*** Add File: empty.txt\n",
        "*** End Patch",
    ]
    .concat();

    let ops = parse_patch(&input).unwrap().ops;
    let result = dir.apply(ops);

    assert_eq!(
        status(&result.operations[0]), "ok",
        "Empty file creation should succeed: {}",
        result.operations[0].message
    );

    let path = "empty.txt";
    assert!(dir.has(path), "Empty file should exist");
    let content = dir.read(path);
    assert!(
        content.is_empty(),
        "Empty file should have no content, got: {:?}",
        content
    );
}

#[test]
fn patch_unicode_content_preserved() {
    let mut dir = tmp();
    let original = "Hello 世界! 🌍\nПривет мир\nالسلام عليكم\n";
    dir.write("unicode.txt", original);

    let input = [
        "*** Begin Patch\n",
        "*** Update File: unicode.txt\n",
        "  Hello 世界! 🌍\n",
        "-Привет мир\n",
        "+Bonjour monde\n",
        "  السلام عليكم\n",
        "*** End Patch",
    ]
    .concat();

    let ops = parse_patch(&input).unwrap().ops;
    let result = dir.apply(ops);

    assert_eq!(
        status(&result.operations[0]), "ok",
        "Unicode patch should succeed: {}",
        result.operations[0].message
    );

    let content = dir.read("unicode.txt");
    assert!(
        content.contains("Hello 世界! 🌍"),
        "Unicode emoji should be preserved"
    );
    assert!(
        content.contains("السلام عليكم"),
        "Arabic text should be preserved"
    );
    assert!(
        content.contains("Bonjour monde"),
        "Replacement should be applied"
    );
    assert!(!content.contains("Привет мир"), "Old text should be gone");
}

#[test]
fn patch_very_long_lines_handled() {
    let mut dir = tmp();
    // Create a file with very long lines (>10KB)
    let long_prefix = "x".repeat(5000);
    let long_suffix = "y".repeat(5000);
    let target = format!("{}TARGET{}", long_prefix, long_suffix);
    let original = target.to_string();
    dir.write("longlines.txt", &original);

    let replacement = format!("{}REPLACEMENT{}", long_prefix, long_suffix);
    let patch = format!(
        "*** Begin Patch\n*** Update File: longlines.txt\n-{}\n+{}\n*** End Patch",
        target, replacement
    );

    let ops = parse_patch(&patch).unwrap().ops;
    let result = dir.apply(ops);

    assert_eq!(
        status(&result.operations[0]), "ok",
        "Long line patch should succeed: {}",
        result.operations[0].message
    );

    let content = dir.read("longlines.txt");
    assert!(
        content.contains("REPLACEMENT"),
        "Long line replacement should be applied"
    );
    assert!(!content.contains("TARGET"), "Old content should be gone");
}

#[test]
fn concurrent_shadow_file_collision() {
    let mut dir = tmp();
    dir.write("concurrent.txt", "original\n");

    // Create multiple patches targeting the same file
    let patch1 = [
        "*** Begin Patch\n",
        "*** Update File: concurrent.txt\n",
        "  original\n",
        "+patch1 line\n",
        "*** End Patch",
    ]
    .concat();

    let patch2 = [
        "*** Begin Patch\n",
        "*** Update File: concurrent.txt\n",
        "  original\n",
        "+patch2 line\n",
        "*** End Patch",
    ]
    .concat();

    // Apply both patches sequentially (simulating concurrent access pattern)
    let ops1 = parse_patch(&patch1).unwrap().ops;
    let _result1 = dir.apply(ops1);

    // After first patch, the content should be different
    let _content1 = dir.read("concurrent.txt");

    // Second patch should fail because context "original" no longer exists
    let ops2 = parse_patch(&patch2).unwrap().ops;
    let _result2 = dir.apply(ops2);

    // One should succeed, one might fail depending on timing
    // The key is that the file should never be corrupted
    let final_content = dir.read("concurrent.txt");

    // File should be in a consistent state
    assert!(
        final_content.contains("patch1 line") || final_content.contains("patch2 line"),
        "One patch should have been applied"
    );

    // Atomicity check: file should never be in a partially written state
    let lines: Vec<&str> = final_content.lines().collect();
    assert!(
        !lines.is_empty() && lines.len() <= 3,
        "File should have consistent line count, got: {:?}",
        lines
    );
}

#[test]
fn integration_test_patch_read_only_file_handling() {
    let mut dir = tmp();
    let path = "readonly.txt";
    dir.write(path, "content\n");
    dir.lock(path);

    let input = [
        "*** Begin Patch\n",
        "*** Update File: readonly.txt\n",
        "  content\n",
        "+new line\n",
        "*** End Patch",
    ]
    .concat();

    let ops = parse_patch(&input).unwrap().ops;
    let result = dir.apply(ops);

    let content = dir.read(path);
    assert_eq!(status(&result.operations[0]), "error");
    assert!(result.operations[0].message.starts_with("Commit failed: "));
    assert!(
        !content.contains("new line"),
        "Read-only file should not be modified on error: {}",
        content
    );
    assert_eq!(dir.names(), vec!["readonly.txt".to_string()]);

    // With the lock gone, the same patch goes through.
    dir.unlock(path);
    let result = dir.apply(parse_patch(&input).unwrap().ops);
    assert_eq!(status(&result.operations[0]), "ok");
    assert_eq!(dir.read(path), "content\nnew line\n");
}

#[test]
fn patch_multi_file_atomic_all_or_nothing() {
    let mut dir = tmp();
    dir.write("file1.txt", "file1 content");
    dir.write("file2.txt", "file2 content");

    // Valid update to file1, but invalid context for file2
    let input = [
        "*** Begin Patch\n",
        "*** Update File: file1.txt\n",
        "  file1 content\n",
        "+added to file1\n",
        "*** Update File: file2.txt\n",
        "  wrong context\n",
        "+added to file2\n",
        "*** End Patch",
    ]
    .concat();

    let ops = parse_patch(&input).unwrap().ops;
    let result = dir.apply(ops);

    // Entire patch should fail due to context mismatch on file2
    assert!(
        result.operations.iter().any(|op| status(op) == "error"),
        "Patch should have at least one error"
    );

    // file1 should NOT have been modified (atomic rollback)
    let content1 = dir.read("file1.txt");
    assert!(
        !content1.contains("added to file1"),
        "file1 should not be modified due to atomic rollback, got: {}",
        content1
    );
}

#[test]
fn test_unified_read_write_patch() {
    let mut dir = tmp();

    // Create initial files
    dir.write("main.rs",
        "fn main() {\n    println!(\"Hello\");\n}\n",
    );
    dir.write("lib.rs",
        "pub fn helper() -> i32 {\n    42\n}\n",
    );

    // Parse a patch that reads then updates
    let input = [
        "*** Begin Patch\n",
        "*** Read File: main.rs\n",
        "*** Update File: lib.rs\n",
        "@@ pub fn helper\n",
        " pub fn helper() -> i32 {\n",
        "-    42\n",
        "+    100\n",
        " }\n",
        "*** End Patch",
    ]
    .concat();

    let ops = parse_patch(&input).unwrap().ops;
    assert_eq!(ops.len(), 2, "Should have 2 operations: Read + Update");

    // Verify first op is Read
    match &ops[0] {
        FileOp::Read { path, .. } => {
            assert_eq!(path, "main.rs");
        }
        _ => panic!("First operation should be Read"),
    }

    // Verify second op is Update
    match &ops[1] {
        FileOp::Update { path, .. } => {
            assert_eq!(path, "lib.rs");
        }
        _ => panic!("Second operation should be Update"),
    }

    // Apply the patch
    let result = dir.apply(ops);
    assert_eq!(result.operations.len(), 2);
    assert_eq!(status(&result.operations[0]), "ok");
    assert_eq!(result.operations[0].op_type, "read");
    assert_eq!(status(&result.operations[1]), "ok");
    assert_eq!(result.operations[1].op_type, "update");

    // Verify lib.rs was updated
    let lib_content = dir.read("lib.rs");
    assert!(lib_content.contains("100"), "lib.rs should be updated");
    assert!(!lib_content.contains("42"), "old value should be removed");

    // Verify main.rs is unchanged (read doesn't modify)
    let main_content = dir.read("main.rs");
    assert!(main_content.contains("println!(\"Hello\")"));
}

#[test]
fn test_mixed_operations_in_patch() {
    let mut dir = tmp();

    // Create files
    dir.write("keep.txt", "Keep this\n");
    dir.write("update.txt", "Old content\n");
    dir.write("delete.txt", "Delete me\n");

    let input = [
        "*** Begin Patch\n",
        "*** Read File: keep.txt\n",
        "*** Add File: new.txt\n",
        "+New file content\n",
        "*** Update File: update.txt\n",
        "-Old content\n",
        "+Updated content\n",
        "*** Delete File: delete.txt\n",
        "*** End Patch",
    ]
    .concat();

    let ops = parse_patch(&input).unwrap().ops;
    assert_eq!(ops.len(), 4);

    let result = dir.apply(ops);

    // All operations should succeed
    for op in &result.operations {
        assert_eq!(status(op), "ok", "Operation failed: {:?}", op);
    }

    // Verify results
    assert!(
        dir.has("new.txt"),
        "new.txt should be created"
    );
    assert!(
        !dir.has("delete.txt"),
        "delete.txt should be deleted"
    );

    let update_content = dir.read("update.txt");
    assert!(update_content.contains("Updated content"));

    let keep_content = dir.read("keep.txt");
    assert!(keep_content.contains("Keep this"), "keep.txt unchanged");
}

#[test]
fn test_word_boundary_hint_matching() {
    let mut dir = tmp();
    dir.write("functions.py",
        "def foo():\n    return 1\n\ndef foo_bar():\n    return 2\n\ndef bar():\n    return 3\n",
    );

    // Test 1: @@ def foo$ should match 'def foo():' but not 'def foo_bar():'
    let input = [
        "*** Begin Patch\n",
        "*** Update File: functions.py\n",
        "@@ def foo$\n",
        " def foo():\n",
        "-    return 1\n",
        "+    return 10\n",
        "*** End Patch",
    ]
    .concat();

    let ops = parse_patch(&input).unwrap().ops;
    let result = dir.apply(ops);
    assert_eq!(
        status(&result.operations[0]), "ok",
        "Word-boundary hint should match exactly 'def foo()': {}",
        result.operations[0].message
    );

    let content = dir.read("functions.py");

    // Should have modified foo(), not foo_bar()
    assert!(
        content.contains("def foo():\n    return 10"),
        "Should have updated foo() to return 10, got:\n{content}"
    );
    assert!(
        content.contains("def foo_bar():\n    return 2"),
        "Should NOT have modified foo_bar(), got:\n{content}"
    );
    assert!(
        content.contains("def bar():\n    return 3"),
        "bar() should be unchanged, got:\n{content}"
    );

    // Reset file for test 2
    dir.write("functions.py",
        "def foo():\n    return 1\n\ndef foo_bar():\n    return 2\n\ndef bar():\n    return 3\n",
    );

    // Test 2: Without $ suffix, should match first occurrence (could be foo_bar)
    // Actually without $ it matches any line containing 'def foo', so it could match foo_bar
    // Let's verify that $ makes it specific
    let input2 = [
        "*** Begin Patch\n",
        "*** Update File: functions.py\n",
        "@@ def foo_bar$\n",
        " def foo_bar():\n",
        "-    return 2\n",
        "+    return 20\n",
        "*** End Patch",
    ]
    .concat();

    let ops2 = parse_patch(&input2).unwrap().ops;
    let result2 = dir.apply(ops2);
    assert_eq!(
        status(&result2.operations[0]), "ok",
        "Word-boundary hint should match 'def foo_bar()': {}",
        result2.operations[0].message
    );

    let content2 = dir.read("functions.py");
    assert!(
        content2.contains("def foo_bar():\n    return 20"),
        "Should have updated foo_bar() to return 20, got:\n{content2}"
    );
    assert!(
        content2.contains("def foo():\n    return 1"),
        "foo() should be unchanged, got:\n{content2}"
    );
}

#[test]
fn test_parallel_patch_multiple_files() {
    let mut dir = tmp();

    // Create 10 files
    for i in 0..10 {
        dir.write(format!("file{}.txt", i),
            format!("content {}\n", i),
        );
    }

    // Create a patch that updates all 10 files
    let mut patch_lines = vec!["*** Begin Patch".to_string()];
    for i in 0..10 {
        patch_lines.push(format!("*** Update File: file{}.txt", i));
        patch_lines.push(format!("  content {}", i));
        patch_lines.push(format!("+new line {}", i));
    }
    patch_lines.push("*** End Patch".to_string());

    let input = patch_lines.join("\n");
    let ops = parse_patch(&input).unwrap().ops;
    assert_eq!(ops.len(), 10, "Should have 10 update operations");

    let result = dir.apply(ops);

    // All operations should succeed
    for (i, op) in result.operations.iter().enumerate() {
        assert_eq!(
            status(op), "ok",
            "Operation {} should succeed: {}",
            i, op.message
        );
    }

    // Verify all files were updated
    for i in 0..10 {
        let content = dir.read(format!("file{}.txt", i));
        assert!(
            content.contains(&format!("new line {}", i)),
            "file{}.txt should have new line, got:\n{}",
            i,
            content
        );
    }
}

#[test]
fn test_conflict_add_update_same_path() {
    let mut dir = tmp();

    // Try to Add and Update the same file in one patch
    let input = [
        "*** Begin Patch\n",
        "*** Add File: conflict.txt\n",
        "+new content\n",
        "*** Update File: conflict.txt\n",
        "-old content\n",
        "+updated content\n",
        "*** End Patch",
    ]
    .concat();

    let ops = parse_patch(&input).unwrap().ops;
    let result = dir.apply(ops);

    // Should have an error due to conflict
    let has_error = result.operations.iter().any(|op| status(op) == "error");
    assert!(has_error, "Should detect Add+Update conflict");

    // At least one operation should mention conflict
    let has_conflict_msg = result
        .operations
        .iter()
        .any(|op| op.message.contains("Cannot Add and Update") || op.message.contains("conflict"));
    assert!(has_conflict_msg, "Error message should mention conflict");
}

#[test]
fn batch_apply_patch_success() {
    let mut dir = tmp();
    dir.write("test.txt", "old content");

    let patch = r#"*** Begin Patch
*** Update File: test.txt
  old content
+new line
*** End Patch"#;

    let ops = parse_patch(patch).unwrap().ops;
    let result = dir.apply(ops);

    assert_eq!(
        status(&result.operations[0]), "ok",
        "Should succeed: {}",
        result.operations[0].message
    );
}

#[test]
fn batch_parse_error_handling() {
    // Invalid patch format
    let patch = "This is not a valid patch";

    let result = parse_patch(patch);
    assert!(result.is_err(), "Should return parse error");
}

#[test]
fn batch_apply_error_returns_structured_result() {
    let mut dir = tmp();
    dir.write("test.txt", "wrong content");

    // Patch context doesn't match file
    let patch = r#"*** Begin Patch
*** Update File: test.txt
  nonexistent context
+new line
*** End Patch"#;

    let ops = parse_patch(patch).unwrap().ops;
    let result = dir.apply(ops);

    assert_eq!(
        status(&result.operations[0]), "error",
        "Should return error status"
    );
    assert!(
        !result.operations[0].message.is_empty(),
        "Should have error message"
    );
}

#[test]
fn batch_empty_patch_no_operations() {
    // Valid format but no operations
    let patch = "*** Begin Patch\n*** End Patch";

    let ops = parse_patch(patch).unwrap().ops;
    assert!(ops.is_empty(), "Should return empty operations");
}

#[test]
fn batch_multi_file_atomic_all_or_nothing() {
    let mut dir = tmp();
    dir.write("file1.txt", "content1");
    dir.write("file2.txt", "content2");

    // One valid update, one invalid (context mismatch)
    let patch = r#"*** Begin Patch
*** Update File: file1.txt
  content1
+added1
*** Update File: file2.txt
  wrong context
+added2
*** End Patch"#;

    let ops = parse_patch(patch).unwrap().ops;
    let result = dir.apply(ops);

    // Both should fail due to atomic behavior
    let has_error = result.operations.iter().any(|op| status(op) == "error");
    assert!(has_error, "Should have at least one error");

    // Check that file1 wasn't modified either (atomic rollback)
    let file1_content = dir.read("file1.txt");
    assert!(
        !file1_content.contains("added1"),
        "Should not have applied due to atomic rollback"
    );
}

#[test]
fn batch_add_file_success() {
    let mut dir = tmp();

    let patch = r#"*** Begin Patch
*** Add File: newfile.txt
+line1
+line2
*** End Patch"#;

    let ops = parse_patch(patch).unwrap().ops;
    let result = dir.apply(ops);

    assert_eq!(
        status(&result.operations[0]), "ok",
        "Should succeed: {}",
        result.operations[0].message
    );

    // Verify file was created
    assert!(
        dir.has("newfile.txt"),
        "File should have been created"
    );
    let content = dir.read("newfile.txt");
    assert!(content.contains("line1"), "Should contain line1");
    assert!(content.contains("line2"), "Should contain line2");
}

#[test]
fn batch_delete_file_success() {
    let mut dir = tmp();
    dir.write("todelete.txt", "content");

    let patch = r#"*** Begin Patch
*** Delete File: todelete.txt
*** End Patch"#;

    let ops = parse_patch(patch).unwrap().ops;
    let result = dir.apply(ops);

    assert_eq!(
        status(&result.operations[0]), "ok",
        "Should succeed: {}",
        result.operations[0].message
    );

    // Verify file was deleted
    assert!(
        !dir.has("todelete.txt"),
        "File should have been deleted"
    );
}

#[test]
fn batch_move_file_success() {
    let mut dir = tmp();
    dir.write("old.txt", "content");

    let patch = r#"*** Begin Patch
*** Update File: old.txt
*** Move to: new.txt
  content
*** End Patch"#;

    let ops = parse_patch(patch).unwrap().ops;
    let result = dir.apply(ops);

    // Move may be supported; check file state
    let old_exists = dir.has("old.txt");
    let new_exists = dir.has("new.txt");

    // Either old was moved to new, or old was updated
    assert!(new_exists || old_exists, "Either old or new should exist");
}

#[test]
fn write_then_read_sees_staged_content_and_commits() {
    let mut dir = tmp();
    dir.write("demo.txt", "old\n");
    let params = params("=== begin\nwrite demo.txt\nnew\nread demo.txt\n=== end");

    let report = dir.batch(&params).unwrap();

    assert!(report.ok);
    assert!(report.committed);
    assert_eq!(report.summary.write_operations, 1);
    assert_eq!(report.summary.read_operations, 1);
    assert_eq!(report.operations[0].status, OpStatus::Success);
    assert_eq!(report.operations[1].status, OpStatus::Success);
    assert!(
        report.operations[1]
            .output
            .as_deref()
            .unwrap()
            .contains("[staged]")
    );
    assert!(
        report.operations[1]
            .output
            .as_deref()
            .unwrap()
            .contains("\nnew")
    );
    assert_eq!(
        dir.read("demo.txt"),
        "new\n"
    );
}

#[test]
fn dry_run_preserves_filesystem_but_reads_staged_content() {
    let mut dir = tmp();
    dir.write("preview.txt", "old\n");
    let mut params = params("=== begin\nwrite preview.txt\npreview\nread preview.txt\n=== end");
    params.dry_run = true;

    let report = dir.batch(&params).unwrap();

    assert!(report.ok);
    assert!(!report.committed);
    assert!(report.dry_run);
    assert_eq!(report.operations[0].status, OpStatus::Success);
    assert_eq!(
        report.operations[0].rollback_reason.as_deref(),
        Some("Dry run: preview only; no filesystem changes committed")
    );
    assert!(
        report.operations[1]
            .output
            .as_deref()
            .unwrap()
            .contains("[staged]")
    );
    assert!(
        report.operations[1]
            .output
            .as_deref()
            .unwrap()
            .contains("\npreview")
    );
    assert_eq!(
        dir.read("preview.txt"),
        "old\n"
    );
}

// ---------------------------------------------------------------------------
// Operations
// ---------------------------------------------------------------------------

fn run(dir: &mut Dir, patch: &str) -> ExecutionReport {
    dir.batch(&params(patch)).unwrap()
}

#[test]
fn create_refuses_a_file_that_is_there() {
    let mut dir = tmp();
    dir.write("a.txt", "old\n");
    let report = run(&mut dir, "=== begin\ncreate a.txt\nnew\n=== end");
    assert!(!report.ok);
    assert_eq!(report.operations[0].status, OpStatus::FatalError);
    assert_eq!(report.operations[0].message, "file already exists: /home/work/dir/a.txt");
    let report = run(&mut dir, "=== begin\ncreate ./a.txt\nnew\n=== end");
    assert_eq!(report.operations[0].message, "file already exists: /home/work/dir/./a.txt");
    assert_eq!(dir.read("a.txt"), "old\n");
    // Nor a directory or a link.
    dir.make_dir("sub");
    dir.link("link");
    let report = run(&mut dir, "=== begin\ncreate sub\nx\n=== end");
    assert_eq!(report.operations[0].message, "file already exists: /home/work/dir/sub");
    let report = run(&mut dir, "=== begin\ncreate link\nx\n=== end");
    assert_eq!(report.operations[0].message, "file already exists: /home/work/dir/link");
    // Nor one that the batch has just created.
    let report = run(&mut dir, "=== begin\ncreate b.txt\nx\ncreate b.txt\ny\n=== end");
    assert_eq!(report.operations[0].status, OpStatus::Skipped);
    assert_eq!(report.operations[1].status, OpStatus::FatalError);
    assert!(!dir.has("b.txt"));
}

#[test]
fn the_system_says_why_a_directory_is_not_updated() {
    let mut dir = tmp();
    dir.make_dir("sub");
    let report = run(&mut dir, "=== begin\nupdate sub\n-x\n+y\n=== end");
    assert_eq!(report.operations[0].message, "io error: Is a directory (os error 21)");
    let report = run(&mut dir, "=== begin\ndelete sub\n=== end");
    assert_eq!(report.operations[0].message, "io error: Is a directory (os error 21)");
    let report = run(&mut dir, "=== begin\nwrite new/a.txt\nx\nupdate new\n-x\n+y\n=== end");
    assert_eq!(report.operations[1].message, "io error: Not a regular file");
}

#[test]
fn deleting_what_is_not_there_is_skipped() {
    let mut dir = tmp();
    let report = run(&mut dir, "=== begin\ndelete gone.txt\n=== end");
    assert!(report.ok);
    assert_eq!(report.operations[0].status, OpStatus::Skipped);
    assert_eq!(report.summary.skipped_operations, 1);
    assert_eq!(report.summary.delete_operations, 1);
}

#[test]
fn a_deleted_file_is_not_there_to_read() {
    let mut dir = tmp();
    dir.write("a.txt", "x\n");
    let report = run(&mut dir, "=== begin\ndelete a.txt\nread a.txt\n=== end");
    assert_eq!(report.operations[0].status, OpStatus::Skipped);
    assert!(report.operations[1].status.is_error());
    assert!(!report.committed);
    assert!(!report.ok);
    assert!(dir.has("a.txt"));
}

#[test]
fn a_failed_read_gives_the_batch_up() {
    let mut dir = tmp();
    let report = run(&mut dir, "=== begin\nread missing.txt\ncreate new.txt\nx\n=== end");
    assert!(!report.ok && !report.committed);
    assert!(report.operations[0].status.is_error());
    assert_eq!(report.operations[1].status, OpStatus::Skipped);
    assert!(!dir.has("new.txt"));
    let report = run(&mut dir, "=== begin\ncreate new.txt\nx\nmap missing\n=== end");
    assert!(!report.ok && !report.committed);
    assert_eq!(report.operations[0].status, OpStatus::Skipped);
    let reason = report.operations[0].rollback_reason.clone().unwrap();
    assert!(reason.starts_with("Batch rolled back due to failure at op 2/2: "));
    assert!(dir.names().is_empty());
}

#[test]
fn move_takes_the_bytes_along() {
    let mut dir = tmp();
    dir.write("old.bin", vec![0u8, 159, 146, 150]);
    let report = run(&mut dir, "=== begin\nmove old.bin sub/new.bin\n=== end");
    assert!(report.ok, "{}", report.operations[0].message);
    assert_eq!(report.summary.move_operations, 1);
    assert!(!dir.has("old.bin"));
    assert_eq!(dir.files[&dir.full("sub/new.bin")], vec![0u8, 159, 146, 150]);
}

#[test]
fn move_refuses_a_destination_that_is_there() {
    let mut dir = tmp();
    dir.write("a.txt", "a\n");
    dir.write("b.txt", "b\n");
    let report = run(&mut dir, "=== begin\nmove a.txt b.txt\n=== end");
    assert!(!report.ok);
    assert_eq!(report.operations[0].message, "file already exists: /home/work/dir/b.txt");
    assert_eq!(dir.read("a.txt"), "a\n");
    assert_eq!(dir.read("b.txt"), "b\n");
}

#[test]
fn update_with_move_to_renames_the_file() {
    let mut dir = tmp();
    dir.write("old.rs", "fn foo() {\n    1\n}\n");
    let report = run(
        &mut dir,
        "=== begin\nupdate old.rs\nmove_to new.rs\n@@\n fn foo() {\n-    1\n+    2\n }\n=== end",
    );
    assert!(report.ok, "{}", report.operations[0].message);
    assert!(!dir.has("old.rs"));
    assert_eq!(dir.read("new.rs"), "fn foo() {\n    2\n}\n");
}

#[test]
fn updates_of_one_file_build_on_each_other() {
    let mut dir = tmp();
    dir.write("a.txt", "one\n");
    let report = run(
        &mut dir,
        "=== begin\nupdate a.txt\n-one\n+two\nupdate a.txt\n-two\n+three\n=== end",
    );
    assert!(report.ok);
    assert_eq!(dir.read("a.txt"), "three\n");
    assert_eq!(report.operations[1].line_changes, Some((1, 1)));
    assert_eq!(report.operations[1].match_info.as_deref(), Some("exact match at line 1"));
}

#[test]
fn table_rows_are_context() {
    let mut dir = tmp();
    dir.write("t.md", "| a |\n| b |\n| c |\n");
    let report = run(&mut dir, "=== begin\nupdate t.md\n@@\n| a |\n-| b |\n+| B |\n=== end");
    assert!(report.ok, "{}", report.operations[0].message);
    assert_eq!(dir.read("t.md"), "| a |\n| B |\n| c |\n");
}

#[test]
fn the_threshold_of_a_patch_goes_before_that_of_the_call() {
    let mut dir = tmp();
    dir.write("a.txt", "alpha one\nbeta two\ngamma three\n");
    let patch = "update a.txt\n@@\n alpha one\n beta twx\n-gamma three\n+gamma 3\n=== end";
    let mut loose = params(&format!("=== begin\n{}", patch));
    loose.dry_run = true;
    let report = dir.batch(&loose).unwrap();
    assert!(report.ok);
    assert_eq!(report.operations[0].match_info.as_deref(), Some("fuzzy:97% match at line 1"));
    let mut strict = params(&format!("=== begin threshold=0.99\n{}", patch));
    strict.threshold = loose.threshold;
    let report = dir.batch(&strict).unwrap();
    assert_eq!(report.operations[0].status, OpStatus::RecoverableError);
}

// ---------------------------------------------------------------------------
// Reading and mapping
// ---------------------------------------------------------------------------

#[test]
fn a_read_shows_its_lines() {
    let mut dir = tmp();
    dir.write("a.txt", "1\n2\n3\n4\n");
    let report = run(&mut dir, "=== begin\nview a.txt start=2 end=3\nread a.txt\n=== end");
    assert_eq!(
        report.operations[0].output.as_deref(),
        Some("--- a.txt [relative] [lines 2-3 of 4] ---\n2\n3")
    );
    assert_eq!(
        report.operations[1].output.as_deref(),
        Some("--- a.txt [relative] [lines 1-5 of 4] ---\n1\n2\n3\n4\n")
    );
    assert_eq!(report.operations[1].message, "read: a.txt (ok)");
}

#[test]
fn long_files_are_cut_unless_a_limit_is_given() {
    let mut dir = tmp();
    dir.write("a.txt", "x\n".repeat(1500));
    let report = run(&mut dir, "=== begin\nread a.txt\nread a.txt limit=1200\n=== end");
    let first = report.operations[0].output.as_ref().unwrap();
    assert!(first.starts_with("--- a.txt [relative] [lines 1-1000 of 1500] ---\n"));
    assert!(first
        .ends_with("\n... [truncated at 1000 lines - use limit or symbols for full file]"));
    let second = report.operations[1].output.as_ref().unwrap();
    assert!(second.starts_with("--- a.txt [relative] [lines 1-1200 of 1500] ---\n"));
    assert!(!second.contains("truncated"));
}

#[test]
fn binary_files_are_not_shown() {
    let mut dir = tmp();
    dir.write("a.bin", vec![1u8, 0, 2]);
    dir.write("b.txt", vec![0xffu8, 0xfe]);
    let report = run(&mut dir, "=== begin\nread a.bin\nread b.txt\n=== end");
    assert_eq!(
        report.operations[0].output.as_deref(),
        Some("--- a.bin [relative] [binary] ---\n[binary file - content not displayed]")
    );
    assert!(report.operations[1].status.is_error());
    assert!(report.operations[1].message.contains("UTF-8 decode error"));
}

#[test]
fn symbols_are_read_by_the_language_of_the_file() {
    let mut dir = tmp();
    dir.write("a.py", "def f():\n    return 1\n\ndef g():\n    return 2\n");
    let report = run(&mut dir, "=== begin\nread a.py symbols=f\n=== end");
    assert_eq!(
        report.operations[0].output.as_deref(),
        Some("--- a.py [relative] [symbols] ---\n// symbol: f\ndef f():\n    return 1\n")
    );
}

#[test]
fn a_map_shows_files_and_functions() {
    let mut dir = tmp();
    dir.write("src/lib.rs", "pub fn one() {\n    1\n}\n");
    dir.write("src/deep/data.bin", vec![0u8; 10]);
    dir.write("src/deep/more.txt", vec![0u8; 3000]);
    dir.write("src/deep/text.txt", "x\ny\n");
    dir.write("src/node_modules/hidden.js", "x\n");
    dir.write("readme.md", "hello\n");
    dir.link("loop");
    let report = run(&mut dir, "=== begin\nwrite src/new.rs\n+fn two() {\n+}\nmap .\n=== end");
    assert_eq!(
        report.operations[1].output.as_deref(),
        Some(
            "--- Map: . ---\n\
             map: . [relative] (5 files, 8 lines total, depth=2)\n\
             \x20 src/\n\
             \x20   deep/\n\
             \x20     more.txt  2 KB [binary]\n\
             \x20     text.txt  2 LOC [text]\n\
             \x20   lib.rs  3 LOC [text]  [one[1:3]]\n\
             \x20   new.rs  2 LOC [text]  [two[1:2]]\n\
             \x20 readme.md  1 LOC [text]"
        )
    );
}

#[test]
fn a_map_is_cut_at_its_limit() {
    let mut dir = tmp();
    dir.write("src/a.rs", "x\n");
    let report = run(&mut dir, "=== begin\nmap src limit=10\n=== end");
    assert_eq!(
        report.operations[0].output.as_deref(),
        Some("--- Map: src ---\nmap: src [\n... [truncated]")
    );
    assert!(report.committed);
    let report = run(&mut dir, "=== begin\nmap src/a.rs\n=== end");
    assert!(report.operations[0].message.contains("Path is not a directory"));
    let report = run(&mut dir, "=== begin\nmap gone\n=== end");
    assert!(report.operations[0].status.is_error());
}

#[test]
fn a_map_is_cut_by_its_characters() {
    let mut dir = tmp();
    dir.write("éé/a.rs", "x\n");
    let report = run(&mut dir, "=== begin\nmap éé limit=8\n=== end");
    assert_eq!(
        report.operations[0].output.as_deref(),
        Some("--- Map: éé ---\nmap: éé \n... [truncated]")
    );
}

// ---------------------------------------------------------------------------
// Batches
// ---------------------------------------------------------------------------

#[test]
fn a_failed_batch_writes_nothing() {
    let mut dir = tmp();
    dir.write("a.txt", "a\n");
    let report = run(
        &mut dir,
        "=== begin\nwrite a.txt\nchanged\nupdate gone.txt\n-x\n+y\ndelete a.txt\nread a.txt\n=== end",
    );
    assert!(!report.ok);
    assert!(!report.committed);
    let statuses: Vec<OpStatus> = report.operations.iter().map(|o| o.status).collect();
    assert_eq!(
        statuses,
        vec![OpStatus::Skipped, OpStatus::FatalError, OpStatus::Skipped, OpStatus::Skipped]
    );
    let reason = report.operations[0].rollback_reason.clone().unwrap();
    assert!(reason.starts_with("Batch rolled back due to failure at op 2/4: "));
    assert_eq!(report.operations[2].message, "Skipped due to earlier batch failure");
    assert_eq!(report.operations[2].rollback_reason, Some(reason));
    assert_eq!(report.summary.total_operations, 4);
    assert_eq!(report.summary.skipped_operations, 3);
    assert_eq!(report.summary.error_operations, 1);
    assert_eq!(dir.read("a.txt"), "a\n");
    assert_eq!(dir.names(), vec!["a.txt".to_string()]);
}

#[test]
fn a_failed_commit_puts_everything_back() {
    let mut dir = tmp();
    dir.write("a.txt", "a\n");
    dir.write("b.txt", "b\n");
    dir.write("c.txt", "c\n");
    dir.lock("c.txt");
    let report = run(
        &mut dir,
        "=== begin\nwrite a.txt\nA\ndelete b.txt\nwrite new.txt\nN\nwrite c.txt\nC\n=== end",
    );
    assert!(!report.committed);
    assert!(!report.ok);
    for op in &report.operations {
        assert_eq!(op.status, OpStatus::FatalError);
        assert!(op.message.starts_with("Commit failed: "));
    }
    assert_eq!(dir.read("a.txt"), "a\n");
    assert_eq!(dir.read("b.txt"), "b\n");
    assert_eq!(dir.read("c.txt"), "c\n");
    assert_eq!(dir.names(), vec!["a.txt", "b.txt", "c.txt"]);
}

#[test]
fn a_commit_leaves_no_spare_files() {
    let mut dir = tmp();
    dir.write("a.txt", "a\n");
    dir.write("b.txt", "b\n");
    let report = run(&mut dir, "=== begin\nwrite a.txt\nA\ndelete b.txt\nwrite n.txt\nN\n=== end");
    assert!(report.ok && report.committed);
    assert_eq!(dir.names(), vec!["a.txt", "n.txt"]);
    assert_eq!(dir.read("a.txt"), "A\n");
    assert_eq!(dir.read("n.txt"), "N\n");
}

#[test]
fn a_file_may_have_the_name_of_a_backup() {
    let mut dir = tmp();
    dir.write("a", "old\n");
    let report = run(&mut dir, "=== begin\nwrite a\nnew\ncreate a.backup_tmp\nkept\n=== end");
    assert!(report.ok && report.committed, "{}", report.operations[0].message);
    assert_eq!(dir.names(), vec!["a", "a.backup_tmp"]);
    assert_eq!(dir.read("a"), "new\n");
    assert_eq!(dir.read("a.backup_tmp"), "kept\n");
    // The file comes back where a later one cannot be written.
    dir.write("z", "z\n");
    dir.lock("z");
    let report =
        run(&mut dir, "=== begin\nwrite a\nx\nwrite a.backup_tmp\ny\nwrite z\nw\n=== end");
    assert!(!report.ok && !report.committed);
    assert_eq!(dir.read("a"), "new\n");
    assert_eq!(dir.read("a.backup_tmp"), "kept\n");
    assert_eq!(dir.names(), vec!["a", "a.backup_tmp", "z"]);
}

#[test]
fn names_of_a_plan_differ() {
    let session = PatchSession::new("/w".to_string(), None, None, Vec::new());
    let file = |path: &str| StagedFile { path: path.to_string(), content: Some(Vec::new()) };
    let files = vec![file("/w/a"), file("/w/a.backup_tmp")];
    let suffixes = vec!["1".repeat(36), "2".repeat(36)];
    let plan = plan_with(&session, &files, &suffixes).unwrap();
    assert_eq!(plan[0].shadow, format!("/w/a.{}.patch_tmp", suffixes[0]));
    assert_eq!(plan[0].backup, format!("/w/a.{}.backup_tmp", suffixes[0]));
    assert_eq!(plan[1].backup, "/w/a.backup_tmp.backup_tmp");
    // A clash takes a file with the very suffix in its name.
    let clash = vec![file("/w/a"), file(&plan[0].shadow)];
    let e = plan_with(&session, &clash, &suffixes).unwrap_err();
    assert_eq!(e.message(), "io error: Temporary file names clash");
}

#[test]
fn links_are_rejected() {
    assert!(check_symlink(&Ok(Node::File(Vec::new())), "a").is_ok());
    assert!(check_symlink(&Ok(Node::Unreadable("denied".to_string())), "a").is_ok());
    let e = check_symlink(&Ok(Node::Symlink), "a").unwrap_err();
    assert!(matches!(e, PatchError::SymlinkRejected(p) if p == "a"));
    let e = check_symlink(&Err("gone (os error 2)".to_string()), "a").unwrap_err();
    assert!(matches!(e, PatchError::Io(m) if m == "gone (os error 2)"));
}

#[test]
fn shadow_names_differ() {
    let a = shadow_path_for("/w/f");
    let b = shadow_path_for("/w/f");
    assert!(a.starts_with("/w/f.") && a.ends_with(".patch_tmp"));
    assert_eq!(a.len(), "/w/f.".len() + 36 + ".patch_tmp".len());
    assert_ne!(a, b);
    assert_eq!(backup_path_for("/w/f"), "/w/f.backup_tmp");
}

#[test]
fn outputs_are_limited() {
    let mut dir = tmp();
    let line = "x".repeat(600 * 1024);
    dir.write("big.txt", &line);
    let patch = format!("=== begin\n{}=== end", "read big.txt\n".repeat(6));
    let report = run(&mut dir, &patch);
    let note = "\n... [truncated: file exceeds 512KB limit]";
    let first = report.operations[0].output.as_ref().unwrap();
    assert!(first.ends_with(note));
    assert_eq!(first.len(), 512 * 1024 + note.len());
    assert!(report.operations[2].output.as_ref().unwrap().ends_with(note));
    assert_eq!(
        report.operations[3].output.as_deref(),
        Some("... [truncated: total output exceeds 2MB limit]")
    );
    assert!(report.operations[4].output.is_none());
    assert!(report.operations[5].output.is_none());
}

#[test]
fn a_batch_that_cannot_be_read_is_refused() {
    let mut dir = tmp();
    let e = dir.batch(&params("nothing to do\n=== end")).unwrap_err();
    assert_eq!(e, "Parse error: parse error: Missing '=== begin' marker");
}

// ---------------------------------------------------------------------------
// Reports
// ---------------------------------------------------------------------------

#[test]
fn a_report_in_words() {
    let mut dir = tmp();
    dir.write("a.txt", "one\ntwo\n");
    let report = run(
        &mut dir,
        "=== begin\nupdate a.txt\n-two\n+three\ncreate b.txt\n+x\ndelete a.txt\nread b.txt\n=== end",
    );
    let details = vec![None, None, None, None];
    assert_eq!(
        render_text_report(&report, &details),
        "✓ 4 operations processed (1 created, 1 updated, 1 deleted, 1 read)\n\
         ✓ update — a.txt (2 → 2 lines) [1/4]\n\
         \x20 exact match at line 2\n\
         \x20  --- a.txt\n\
         \x20  +++ a.txt\n\
         \x20  @@ -1,2 +1,2 @@\n\
         \x20   one\n\
         \x20  -two\n\
         \x20  ... (+1 more lines)\n\
         ✓ add — b.txt (1 lines) [2/4]\n\
         \x20  --- /dev/null\n\
         \x20  +++ b.txt\n\
         \x20  @@ -0,0 +1,1 @@\n\
         \x20  +x\n\
         ✓ delete — a.txt (removed 2 lines) [3/4]\n\
         --- b.txt [relative] [staged] [lines 1-2 of 1] ---\n\
         x\n"
    );
}

#[test]
fn a_report_of_errors_and_of_nothing() {
    let mut dir = tmp();
    let report = run(&mut dir, "=== begin\nupdate gone.txt\n-x\n+y\n=== end");
    let text = render_text_report(&report, &vec![Some("{}".to_string())]);
    assert!(text.starts_with("! 1 operations processed (1 updated)\n[ERROR] update — gone.txt: "));
    assert!(text.ends_with("\n```json\n{}\n```"));
    let report = run(&mut dir, "=== begin\n=== end");
    assert_eq!(render_text_report(&report, &Vec::new()), "No operations performed.");
    assert_eq!(render_error_text("bad"), "PATCH ERROR: bad");
}

#[test]
fn a_patch_result_in_one_line() {
    let mut dir = tmp();
    dir.write("a.txt", "a\n");
    let result = dir.apply(vec![
        FileOp::Delete { path: "a.txt".to_string() },
        FileOp::Delete { path: "gone.txt".to_string() },
        FileOp::Update { path: "gone.txt".to_string(), hunks: Vec::new(), move_to: None },
    ]);
    assert_eq!(
        format_outcome_summary(&result),
        "PatchOutcome: 3 total, 1 successful, 1 failed"
    );
}

#[test]
fn a_map_goes_no_deeper_than_asked() {
    let mut dir = tmp();
    dir.write("a/b/c.txt", "x\n");
    dir.write("top.txt", "x\n");
    let report = run(&mut dir, "=== begin\nmap . depth=0\nmap . depth=1\n=== end");
    assert_eq!(
        report.operations[0].output.as_deref(),
        Some("--- Map: . ---\nmap: . [relative] (1 files, 1 lines total, depth=0)\n  top.txt  1 LOC [text]")
    );
    assert_eq!(
        report.operations[1].output.as_deref(),
        Some("--- Map: . ---\nmap: . [relative] (1 files, 1 lines total, depth=1)\n  a/\n  top.txt  1 LOC [text]")
    );
}

#[test]
fn advice_goes_to_the_operation_that_wrote_the_file_last() {
    let dir = tmp();
    let ops = parse_patch("write a.rs\nfn a(){}\nwrite b.rs\nx\nwrite a.rs\nfn b(){}\n").unwrap().ops;
    let disk = dir.disk(&None, &ops);
    let mut session = PatchSession::new(dir.base.clone(), None, None, disk);
    let execution = execute_batch(&mut session, &ops);
    let advice = vec!["Advisory (rustfmt): tidy up".to_string()];
    let target = dir.full("a.rs");
    let execution = attach_warnings(&session, &ops, execution, &target, advice.clone(), true);
    let none: Vec<String> = Vec::new();
    assert_eq!(execution.operations[0].warnings, none);
    assert_eq!(execution.operations[1].warnings, none);
    assert_eq!(execution.operations[2].warnings, advice);
    assert_eq!(execution.operations[2].status, OpStatus::ValidationWarning);
    let missing = vec!["Advisory: rustfmt not found".to_string()];
    let target = dir.full("b.rs");
    let execution = attach_warnings(&session, &ops, execution, &target, missing.clone(), false);
    assert_eq!(execution.operations[1].warnings, missing);
    assert_eq!(execution.operations[1].status, OpStatus::Success);
    let report = finish_batch(execution, false, None);
    assert!(report.ok && report.committed);
    let text = render_text_report(&report, &vec![None, None, None]);
    assert!(text.contains(
        "! write — a.rs (1 → 1 lines) [warnings: Advisory (rustfmt): tidy up] [3/3]"
    ));
    assert_eq!(report.operations[2].status.as_str(), "validation_warning");
}

#[test]
fn a_warning_does_not_outlive_a_failed_commit() {
    let dir = tmp();
    let ops = parse_patch("write a.rs\nfn a(){}\n").unwrap().ops;
    let disk = dir.disk(&None, &ops);
    let mut session = PatchSession::new(dir.base.clone(), None, None, disk);
    let execution = execute_batch(&mut session, &ops);
    let advice = vec!["Advisory (rustfmt): tidy up".to_string()];
    let execution =
        attach_warnings(&session, &ops, execution, &dir.full("a.rs"), advice.clone(), true);
    let report = finish_batch(execution, false, Some("full".to_string()));
    assert!(!report.ok && !report.committed);
    assert_eq!(report.operations[0].status, OpStatus::FatalError);
    assert_eq!(report.operations[0].message, "Commit failed: full");
    assert_eq!(report.operations[0].warnings, advice);
}

#[test]
fn home_and_absolute_paths_are_seen() {
    let mut dir = tmp();
    dir.write("/home/someone/notes.txt", "n\n");
    dir.write("/etc/conf", "c\n");
    let report = run(&mut dir, "=== begin\nread ~/notes.txt limit=1\nread /etc/conf limit=1\n=== end");
    assert_eq!(
        report.operations[0].output.as_deref(),
        Some("--- ~/notes.txt [home] [lines 1-1 of 1] ---\nn")
    );
    assert_eq!(
        report.operations[1].output.as_deref(),
        Some("--- /etc/conf [absolute] [lines 1-1 of 1] ---\nc")
    );
}

#[test]
fn context_that_is_not_found_leads_to_the_closest_lines() {
    let mut dir = tmp();
    dir.write("a.rs", "fn alpha() {}\nfn beta() {}\nfn gamma() {}\n");
    let report = run(&mut dir, "=== begin\nupdate a.rs\n-fn betta() {}\n+fn delta() {}\n=== end");
    assert_eq!(report.operations[0].status, OpStatus::RecoverableError);
    let error = report.operations[0].llm_error.as_ref().unwrap();
    assert_eq!(error.file, "a.rs");
    assert_eq!(error.actual_content, "fn beta() {}");
    assert_eq!(error.suggested_action, "fuzzy_match_available");
    assert_eq!(error.expected_context, vec!["fn betta() {}".to_string()]);
    let score = error.similarity_score.unwrap();
    assert_eq!((score.matched, score.old_len, score.new_len), (13, 14, 13));
}
