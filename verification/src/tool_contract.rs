//! What the tool says of itself.

use vstd::prelude::*;
use vstd::string::*;

use crate::error::cat3;
use crate::numbers;
use crate::numbers::decimal_of;

verus! {

/// The version of the tool.
pub const VERSION: &'static str = "0.0.16";

/// The name of the tool.
pub const NAME: &'static str = "weave-patch-mcp";

/// What the tool is.
pub const DESCRIPTION: &'static str = "MCP server for structured file patching using V4A diffs. Create, update, and delete files in one atomic operation.";

/// Where the sources of the tool are published.
pub const REPOSITORY: &'static str = "";

/// How deep a map goes.
pub const DEFAULT_MAP_DEPTH: usize = 3;

/// How many bytes of a map are shown.
pub const DEFAULT_MAP_OUTPUT_LIMIT: usize = 6000;

/// How many lines of a file are shown.
pub const DEFAULT_READ_LINE_LIMIT: usize = 1000;

/// What the parameter `patch` is.
pub const PATCH_PARAM_DESCRIPTION: &'static str = "Compact patch text containing view/read, map, create, write, update, move, and delete operations. Use weave syntax wrapped in === begin / === end, or paste native apply_patch-style *** Begin Patch blocks.";

/// What the parameter `threshold` is.
pub const THRESHOLD_PARAM_DESCRIPTION: &'static str = "Optional fuzzy matching threshold (0.0-1.0). Higher values (e.g., 0.97) require stricter matching. Default: 0.85.";

/// What the parameter `dry_run` is.
pub const DRY_RUN_PARAM_DESCRIPTION: &'static str = "When true, preview the batch against staged state without committing filesystem changes.";

/// What the parameter `response_format` is.
pub const RESPONSE_FORMAT_PARAM_DESCRIPTION: &'static str = "Response format. Use 'text' for the human-readable summary (default) or 'json' for a machine-readable JSON payload in the tool text response.";

/// What the tool does.
pub const PATCH_EXEC_DESCRIPTION: &'static str = "Structured file patching in one atomic batch. Version: 0.0.16\n\nOperations, wrapped in === begin / === end: view|read <path>, map <dir>, create <path>, write <path>, update <path>, move <from> <to>, delete <path>. Native *** Begin Patch blocks are accepted directly.\n\nThe operations run in their order on staged files. All writes take effect together, or none does.";

/// The version of the tool, and what it is.
#[derive(Debug, Clone, PartialEq)]
pub struct VersionInfo {
    /// The version.
    pub version: String,
    /// The name.
    pub name: String,
    /// What it is.
    pub description: String,
    /// Where its sources are published.
    pub repository: String,
}

/// The version of the tool, and what it is.
pub fn get_version_info() -> (r: VersionInfo)
    ensures
        r.version@ == VERSION@,
        r.name@ == NAME@,
        r.description@ == DESCRIPTION@,
        r.repository@ == REPOSITORY@,
{
    VersionInfo {
        version: VERSION.to_owned(),
        name: NAME.to_owned(),
        description: DESCRIPTION.to_owned(),
        repository: REPOSITORY.to_owned(),
    }
}

/// The usual depth and size of a map, in one line.
pub fn readme_defaults_line() -> (r: String)
    ensures
        r@ == "Defaults: `depth="@ + numbers::decimal(DEFAULT_MAP_DEPTH as nat) + "`, `limit="@
            + numbers::decimal(DEFAULT_MAP_OUTPUT_LIMIT as nat) + "` chars."@,
{
    let mut s = cat3("Defaults: `depth=", decimal_of(DEFAULT_MAP_DEPTH).as_str(), "`, `limit=");
    s.append(decimal_of(DEFAULT_MAP_OUTPUT_LIMIT).as_str());
    s.append("` chars.");
    s
}

/// How to use the tool.
pub open spec fn instructions() -> Seq<char> {
    "Structured file patching MCP server. One tool: patch__exec.\n\nMigration-friendly format: view/read, map, create, write, update, move, delete in === begin / === end, or native apply_patch blocks.\n\nView/read: view|read <path> [symbols=a,b] [language=rust] [offset=0] [limit=100] [start=1] [end=20]\n\nCreate/write: create|write <path> followed by raw text or apply_patch-style + lines. Native *** Begin Patch blocks are accepted directly.\n\nAgent controls: dry_run previews the batch without committing. response_format=json returns a machine-readable JSON payload.\n\nDefaults: map depth="@
        + numbers::decimal(DEFAULT_MAP_DEPTH as nat) + ", map limit="@ + numbers::decimal(
        DEFAULT_MAP_OUTPUT_LIMIT as nat,
    ) + " chars, read truncation="@ + numbers::decimal(DEFAULT_READ_LINE_LIMIT as nat)
        + " lines.\n\nSecurity: no symlinks. Relative paths (including ../), absolute paths, and ~ home expansion are allowed.\n\nValidators: rustfmt, gofmt, py_compile, json.tool, bash -n, node --check, terraform fmt (advisory)."@
}

/// How to use the tool.
pub fn server_instructions() -> (r: String)
    ensures
        r@ == instructions(),
{
    let mut s = cat3(
        "Structured file patching MCP server. One tool: patch__exec.\n\nMigration-friendly format: view/read, map, create, write, update, move, delete in === begin / === end, or native apply_patch blocks.\n\nView/read: view|read <path> [symbols=a,b] [language=rust] [offset=0] [limit=100] [start=1] [end=20]\n\nCreate/write: create|write <path> followed by raw text or apply_patch-style + lines. Native *** Begin Patch blocks are accepted directly.\n\nAgent controls: dry_run previews the batch without committing. response_format=json returns a machine-readable JSON payload.\n\nDefaults: map depth=",
        decimal_of(DEFAULT_MAP_DEPTH).as_str(),
        ", map limit=",
    );
    s.append(decimal_of(DEFAULT_MAP_OUTPUT_LIMIT).as_str());
    s.append(" chars, read truncation=");
    s.append(decimal_of(DEFAULT_READ_LINE_LIMIT).as_str());
    s.append(
        " lines.\n\nSecurity: no symlinks. Relative paths (including ../), absolute paths, and ~ home expansion are allowed.\n\nValidators: rustfmt, gofmt, py_compile, json.tool, bash -n, node --check, terraform fmt (advisory).",
    );
    s
}

} // verus!
