//! Paths, and what the tool says of itself.

use weave_patch_mcp::patch_utils::{normalize_path, paths_equivalent};
use weave_patch_mcp::tool_contract;

#[test]
fn test_normalize_path_simple() {
    let result = normalize_path("src/foo.rs");
    assert_eq!(result, "src/foo.rs");
}

#[test]
fn test_paths_equivalent() {
    assert!(paths_equivalent("src/foo.rs", "src/foo.rs"));
    assert!(!paths_equivalent("src/foo.rs", "src/bar.rs"));
}

#[test]
fn normal_paths_have_no_spare_parts() {
    assert_eq!(normalize_path("./src//foo.rs/"), "src/foo.rs");
    assert_eq!(normalize_path("./."), ".");
    assert_eq!(normalize_path(""), "");
    assert_eq!(normalize_path("src/./a/../foo.rs"), "src/a/../foo.rs");
    assert_eq!(normalize_path("/"), "/");
    assert_eq!(normalize_path("//a"), "/a");
    assert!(paths_equivalent("src/./foo.rs", "src//foo.rs"));
    assert!(paths_equivalent("./src/foo.rs", "src/foo.rs"));
    assert!(!paths_equivalent("a/../b", "b"));
    assert!(!paths_equivalent("./src", "/src"));
    let once = normalize_path("/a//b/./c/");
    assert_eq!(normalize_path(&once), once);
}

#[test]
fn normal_paths_have_slashes() {
    assert_eq!(normalize_path("src\\.\\foo.rs"), "src/foo.rs");
    assert!(paths_equivalent("src\\foo.rs", "src/foo.rs"));
}

/// What the readme says of the version and the defaults.
const README: &str = "\
![version](https://img.shields.io/badge/version-0.0.16-blue)

Defaults: `depth=3`, `limit=6000` chars. File reads truncate at `1000` lines.

Set `dry_run` to preview a batch, and `response_format=json` for a machine-readable report.
";

#[test]
fn tool_contract_docs_are_synchronized() {
    let readme = README;
    let instructions = tool_contract::server_instructions();

    assert!(
        tool_contract::PATCH_EXEC_DESCRIPTION
            .contains(&format!("Version: {}", tool_contract::VERSION))
    );
    assert!(readme.contains(&format!("version-{}", tool_contract::VERSION)));
    assert!(readme.contains(&tool_contract::readme_defaults_line()));
    assert!(readme.contains("dry_run"));
    assert!(readme.contains("response_format=json"));
    assert!(instructions.contains("dry_run"));
    assert!(instructions.contains("response_format=json"));
    assert!(instructions.contains(&format!(
        "map depth={}, map limit={} chars, read truncation={} lines",
        tool_contract::DEFAULT_MAP_DEPTH,
        tool_contract::DEFAULT_MAP_OUTPUT_LIMIT,
        tool_contract::DEFAULT_READ_LINE_LIMIT
    )));
}

#[test]
fn version_info_names_the_tool() {
    let info = tool_contract::get_version_info();
    assert_eq!(info.version, tool_contract::VERSION);
    assert_eq!(info.name, "weave-patch-mcp");
    assert_eq!(info.description, tool_contract::DESCRIPTION);
}
