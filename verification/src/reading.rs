//! The operations of a batch that show files and directories.

use vstd::prelude::*;
use vstd::string::*;

use crate::bytes;
use crate::bytes::{decode, is_binary};
use crate::error;
use crate::error::{cat2, cat3, PatchError};
use crate::hints;
use crate::lists;
use crate::numbers;
use crate::numbers::decimal_of;
use crate::outcome;
use crate::outcome::{make_error_op, make_op, with_path_source, OpResult, OpStatus};
use crate::parser;
use crate::parser::ReadSpec;
use crate::paths;
use crate::paths::{extension_of, PathSource};
use crate::reader;
use crate::reader::{apply_line_range, extract_symbols};
use crate::text;
use crate::text::{chars_of, join_texts, lines_of, same_text, text_of};
use crate::tool_contract::{
    DEFAULT_MAP_DEPTH, DEFAULT_MAP_OUTPUT_LIMIT, DEFAULT_READ_LINE_LIMIT,
};
use crate::tree;
use crate::tree::map_directory_with_metrics;
use crate::workspace;
use crate::workspace::{PatchSession, VirtualPathKind};

verus! {

broadcast use crate::lists::group_lists;

// ---------------------------------------------------------------------------
// Languages
// ---------------------------------------------------------------------------

/// The language of the files with an extension in lower case.
pub open spec fn language_of(ext: Seq<char>) -> Seq<char> {
    if ext == "rs"@ {
        "rust"@
    } else if ext == "py"@ {
        "python"@
    } else if ext == "ts"@ || ext == "tsx"@ {
        "typescript"@
    } else if ext == "js"@ || ext == "jsx"@ || ext == "mjs"@ || ext == "cjs"@ {
        "javascript"@
    } else if ext == "go"@ {
        "go"@
    } else {
        "unknown"@
    }
}

/// The extension of a path, or nothing.
pub open spec fn extension_or_none(path: Seq<char>) -> Seq<char> {
    match paths::extension(path) {
        Some(ext) => ext,
        None => Seq::empty(),
    }
}

/// The language of a file by its path.
pub open spec fn inferred(path: Seq<char>) -> Seq<char> {
    language_of(hints::lowercase(extension_or_none(path)))
}

/// The language of the files with an extension in lower case.
pub fn language_for(ext: &str) -> (r: String)
    ensures
        r@ == language_of(ext@),
{
    if same_text(ext, "rs") {
        "rust".to_owned()
    } else if same_text(ext, "py") {
        "python".to_owned()
    } else if same_text(ext, "ts") || same_text(ext, "tsx") {
        "typescript".to_owned()
    } else if same_text(ext, "js") || same_text(ext, "jsx") || same_text(ext, "mjs")
        || same_text(ext, "cjs") {
        "javascript".to_owned()
    } else if same_text(ext, "go") {
        "go".to_owned()
    } else {
        "unknown".to_owned()
    }
}

/// The language of a file by its path.
pub fn infer_language(path: &str) -> (r: String)
    ensures
        r@ == inferred(path@),
{
    let ext = match extension_of(path) {
        Some(ext) => ext,
        None => {
            let none = String::new();
            assert(none@ =~= Seq::empty());
            none
        },
    };
    language_for(ext.as_str().to_lowercase().as_str())
}

// ---------------------------------------------------------------------------
// Reading
// ---------------------------------------------------------------------------

/// What is shown of a file: its text, what is said of it before, and what is said after.
#[verifier::ext_equal]
pub struct ShownView {
    pub body: Seq<char>,
    pub label: Seq<char>,
    pub notice: Seq<char>,
}

/// The label of some lines of a file.
pub open spec fn lines_label(first: int, last: int, total: int) -> Seq<char> {
    "[lines "@ + numbers::decimal(first as nat) + "-"@ + numbers::decimal(last as nat) + " of "@
        + numbers::decimal(total as nat) + "]"@
}

/// How many lines are shown: no more than usual, unless symbols or a number are asked for.
pub open spec fn effective_limit(request: parser::ReadView) -> Option<usize> {
    if request.symbols is Some || request.limit is Some {
        request.limit
    } else {
        Some(DEFAULT_READ_LINE_LIMIT)
    }
}

/// The notice of a file that was cut off.
pub open spec fn cut_notice(request: parser::ReadView, total: int) -> Seq<char> {
    if request.symbols is None && request.limit is None && total > DEFAULT_READ_LINE_LIMIT {
        "\n... [truncated at "@ + numbers::decimal(DEFAULT_READ_LINE_LIMIT as nat)
            + " lines - use limit or symbols for full file]"@
    } else {
        Seq::empty()
    }
}

/// What is shown of a text.
pub open spec fn shown_text(request: parser::ReadView, content: Seq<char>) -> ShownView {
    let total = text::lines(content).len() as int;
    if request.symbols is Some && request.symbols->0.len() > 0 {
        let language = match request.language {
            Some(l) => l,
            None => inferred(request.path),
        };
        ShownView {
            body: reader::symbols_text(content, language, request.symbols->0),
            label: "[symbols]"@,
            notice: Seq::empty(),
        }
    } else {
        let (body, first, last) = reader::line_range(
            content,
            request.offset,
            effective_limit(request),
        );
        ShownView {
            body,
            label: lines_label(first, last, total),
            notice: cut_notice(request, total),
        }
    }
}

/// What is shown of a file, or why its text cannot be.
pub open spec fn shown_file(request: parser::ReadView, content: Seq<u8>) -> Result<
    ShownView,
    error::PatchErrorView,
> {
    if bytes::binary(content) {
        Ok(
            ShownView {
                body: "[binary file - content not displayed]"@,
                label: "[binary]"@,
                notice: Seq::empty(),
            },
        )
    } else {
        match bytes::decoded(content) {
            Some(t) => Ok(shown_text(request, t)),
            None => Err(
                error::PatchErrorView::Io(
                    "UTF-8 decode error: "@ + bytes::decoding_error(content),
                ),
            ),
        }
    }
}

/// The output of a reading operation.
pub open spec fn read_output(
    path: Seq<char>,
    source: PathSource,
    staged: bool,
    shown: ShownView,
) -> Seq<char> {
    "--- "@ + path + " ["@ + paths::source_text(source) + "]"@ + (if staged {
        " [staged]"@
    } else {
        ""@
    }) + " "@ + shown.label + " ---\n"@ + shown.body + shown.notice
}

/// The message of a reading operation.
pub open spec fn read_message(path: Seq<char>, staged: bool) -> Seq<char> {
    "read: "@ + path + (if staged {
        " (staged)"@
    } else {
        " (ok)"@
    })
}

/// The result of a reading operation.
pub open spec fn read_result(
    s: workspace::SessionView,
    request: parser::ReadView,
    batch: Option<(usize, usize)>,
) -> outcome::OpResultView {
    let path = request.path;
    let source = workspace::path_source(s, path);
    let staged = workspace::staged_at(s.staged, workspace::full_path(s, path)) is Some;
    let shown = match workspace::file_bytes(s, path) {
        Err(e) => Err(e),
        Ok(content) => shown_file(request, content),
    };
    match shown {
        Err(e) => outcome::sourced(outcome::error_result(path, "read"@, e, batch), source),
        Ok(view) => outcome::OpResultView {
            output: Some(read_output(path, source, staged, view)),
            path_source: Some(source),
            ..outcome::plain_result(
                path,
                "read"@,
                OpStatus::Success,
                read_message(path, staged),
                batch,
            )
        },
    }
}

/// What is shown of a file.
struct Shown {
    body: String,
    label: String,
    notice: String,
}

impl View for Shown {
    type V = ShownView;

    closed spec fn view(&self) -> ShownView {
        ShownView { body: self.body@, label: self.label@, notice: self.notice@ }
    }
}

/// The label of some lines of a file.
fn label_lines(first: usize, last: usize, total: usize) -> (r: String)
    ensures
        r@ == lines_label(first as int, last as int, total as int),
{
    let mut s = cat3("[lines ", decimal_of(first).as_str(), "-");
    s.append(decimal_of(last).as_str());
    s.append(" of ");
    s.append(decimal_of(total).as_str());
    s.append("]");
    s
}

/// No text.
fn no_text() -> (r: String)
    ensures
        r@ == Seq::<char>::empty(),
{
    let none = String::new();
    assert(none@ =~= Seq::empty());
    none
}

/// What is shown of a text.
fn show_text(request: &ReadSpec, content: &str) -> (r: Shown)
    ensures
        r@ == shown_text(request@, content@),
{
    let total: usize = lines_of(content).len();
    assert(total == text::lines(content@).len());
    if let Some(list) = &request.symbols {
        assert(lists::texts(list@).len() == list@.len());
        if list.len() > 0 {
            let language = match &request.language {
                Some(l) => l.clone(),
                None => infer_language(request.path.as_str()),
            };
            return Shown {
                body: extract_symbols(content, language.as_str(), list),
                label: "[symbols]".to_owned(),
                notice: no_text(),
            };
        }
    }
    let limit: Option<usize> = if request.symbols.is_some() || request.limit.is_some() {
        request.limit
    } else {
        Some(DEFAULT_READ_LINE_LIMIT)
    };
    let (body, first, last) = apply_line_range(content, request.offset, limit);
    let notice = if request.symbols.is_none() && request.limit.is_none() && total
        > DEFAULT_READ_LINE_LIMIT {
        cat3(
            "\n... [truncated at ",
            decimal_of(DEFAULT_READ_LINE_LIMIT).as_str(),
            " lines - use limit or symbols for full file]",
        )
    } else {
        no_text()
    };
    Shown { body, label: label_lines(first, last, total), notice }
}

/// What is shown of a file.
fn show_file(request: &ReadSpec, content: Vec<u8>) -> (r: Result<Shown, PatchError>)
    ensures
        match r {
            Ok(shown) => shown_file(request@, content@) == Ok::<ShownView, error::PatchErrorView>(
                shown@,
            ),
            Err(e) => shown_file(request@, content@) == Err::<ShownView, error::PatchErrorView>(e@),
        },
{
    if is_binary(&content) {
        return Ok(
            Shown {
                body: "[binary file - content not displayed]".to_owned(),
                label: "[binary]".to_owned(),
                notice: no_text(),
            },
        );
    }
    match decode(content) {
        Ok(t) => Ok(show_text(request, t.as_str())),
        Err(m) => Err(PatchError::Io(cat2("UTF-8 decode error: ", m.as_str()))),
    }
}

/// Shows a file, or parts of it.
pub fn perform_read(session: &PatchSession, request: &ReadSpec, batch: Option<(usize, usize)>) -> (r:
    OpResult)
    ensures
        r@ == read_result(session@, request@, batch),
{
    let path = request.path.as_str();
    let source = session.resolve_path(path).source;
    let (content, staged) = match session.read_virtual_file(path) {
        Err(e) => {
            return with_path_source(make_error_op(path, "read", &e, batch), source);
        },
        Ok(f) => (f.bytes, f.staged),
    };
    match show_file(request, content) {
        Err(e) => with_path_source(make_error_op(path, "read", &e, batch), source),
        Ok(shown) => {
            let mut output = cat3("--- ", path, " [");
            output.append(source.as_str());
            output.append("]");
            output.append(if staged { " [staged]" } else { "" });
            output.append(" ");
            output.append(shown.label.as_str());
            output.append(" ---\n");
            output.append(shown.body.as_str());
            output.append(shown.notice.as_str());
            let message = cat3("read: ", path, if staged { " (staged)" } else { " (ok)" });
            let mut op = with_path_source(
                make_op(path, "read", OpStatus::Success, message.as_str(), batch),
                source,
            );
            op.output = Some(output);
            assert(op@ =~~= read_result(session@, request@, batch));
            op
        },
    }
}

// ---------------------------------------------------------------------------
// Mapping
// ---------------------------------------------------------------------------

/// A text, cut to `limit` characters and marked where it has more.
pub open spec fn cut_map(s: Seq<char>, limit: usize) -> Seq<char> {
    if s.len() > limit {
        s.take(limit as int) + "\n... [truncated]"@
    } else {
        s
    }
}

/// The text of a map.
pub open spec fn map_text(
    path: Seq<char>,
    source: PathSource,
    lines: Seq<Seq<char>>,
    metrics: tree::MapMetrics,
    limit: usize,
) -> Seq<char> {
    let head = "map: "@ + path + " ["@ + paths::source_text(source) + "] ("@ + numbers::decimal(
        metrics.file_count as nat,
    ) + " files, "@ + numbers::decimal(metrics.total_lines as nat) + " lines total, depth="@
        + numbers::decimal(metrics.max_depth as nat) + ")"@;
    cut_map(text::join(seq![head] + lines, "\n"@), limit)
}

/// The number that was asked for, or the usual one.
pub open spec fn or_usual(asked: Option<usize>, usual: usize) -> usize {
    match asked {
        Some(n) => n,
        None => usual,
    }
}

/// The map that was asked for, or why there is none.
pub open spec fn mapped(
    s: workspace::SessionView,
    path: Seq<char>,
    depth: Option<usize>,
    limit: Option<usize>,
) -> Result<Seq<char>, error::PatchErrorView> {
    match workspace::path_kind(s, path) {
        Err(e) => Err(e),
        Ok(VirtualPathKind::Missing) => Err(error::PatchErrorView::FileNotFound(path)),
        Ok(VirtualPathKind::File) => Err(error::PatchErrorView::Io("Path is not a directory"@)),
        Ok(VirtualPathKind::Directory) => match tree::map_dir(
            s,
            workspace::full_path(s, path),
            or_usual(depth, DEFAULT_MAP_DEPTH) as int,
            0,
        ) {
            Err(m) => Err(error::PatchErrorView::Io(m)),
            Ok((lines, metrics)) => Ok(
                map_text(
                    path,
                    workspace::path_source(s, path),
                    lines,
                    metrics,
                    or_usual(limit, DEFAULT_MAP_OUTPUT_LIMIT),
                ),
            ),
        },
    }
}

/// The result of a mapping operation.
pub open spec fn map_result(
    s: workspace::SessionView,
    path: Seq<char>,
    depth: Option<usize>,
    limit: Option<usize>,
    batch: Option<(usize, usize)>,
) -> outcome::OpResultView {
    let source = workspace::path_source(s, path);
    match mapped(s, path, depth, limit) {
        Err(e) => outcome::sourced(outcome::error_result(path, "map"@, e, batch), source),
        Ok(t) => outcome::OpResultView {
            output: Some("--- Map: "@ + path + " ---\n"@ + t),
            path_source: Some(source),
            ..outcome::plain_result(
                path,
                "map"@,
                OpStatus::Success,
                "map: "@ + path + " (ok)"@,
                batch,
            )
        },
    }
}

/// The text of a map.
pub fn render_map(
    path: &str,
    source: PathSource,
    lines: Vec<String>,
    metrics: tree::MapMetrics,
    limit: usize,
) -> (r: String)
    ensures
        r@ == map_text(path@, source, lists::texts(lines@), metrics, limit),
{
    let mut head = cat3("map: ", path, " [");
    head.append(source.as_str());
    head.append("] (");
    head.append(decimal_of(metrics.file_count).as_str());
    head.append(" files, ");
    head.append(decimal_of(metrics.total_lines).as_str());
    head.append(" lines total, depth=");
    head.append(decimal_of(metrics.max_depth).as_str());
    head.append(")");
    let mut all = lines;
    all.insert(0, head);
    assert(lists::texts(all@) =~= seq![head@] + lists::texts(lines@));
    let whole = join_texts(&all, "\n");
    let v = chars_of(whole.as_str());
    if v.len() > limit {
        let mut out = text_of(&v, 0, limit);
        assert(v@.subrange(0, limit as int) =~= v@.take(limit as int));
        out.append("\n... [truncated]");
        out
    } else {
        whole
    }
}

/// The map that was asked for, or why there is none.
pub fn execute_map(
    session: &PatchSession,
    path: &str,
    depth: Option<usize>,
    output_limit: Option<usize>,
) -> (r: Result<String, PatchError>)
    ensures
        match r {
            Ok(t) => mapped(session@, path@, depth, output_limit) == Ok::<
                Seq<char>,
                error::PatchErrorView,
            >(t@),
            Err(e) => mapped(session@, path@, depth, output_limit) == Err::<
                    Seq<char>,
                    error::PatchErrorView,
                >(e@),
        },
{
    let max_depth: usize = match depth {
        Some(n) => n,
        None => DEFAULT_MAP_DEPTH,
    };
    let limit: usize = match output_limit {
        Some(n) => n,
        None => DEFAULT_MAP_OUTPUT_LIMIT,
    };
    match session.resolve_virtual_kind(path) {
        Err(e) => Err(e),
        Ok((found, kind)) => match kind {
            VirtualPathKind::Missing => Err(PatchError::FileNotFound(path.to_owned())),
            VirtualPathKind::File => Err(PatchError::Io("Path is not a directory".to_owned())),
            VirtualPathKind::Directory => {
                match map_directory_with_metrics(session, found.full_path.as_str(), max_depth, 0) {
                    Err(m) => Err(PatchError::Io(m)),
                    Ok((lines, metrics)) => Ok(
                        render_map(path, found.source, lines, metrics, limit),
                    ),
                }
            },
        },
    }
}

/// Shows the shape of a directory.
pub fn perform_map(
    session: &PatchSession,
    path: &str,
    depth: Option<usize>,
    output_limit: Option<usize>,
    batch: Option<(usize, usize)>,
) -> (r: OpResult)
    ensures
        r@ == map_result(session@, path@, depth, output_limit, batch),
{
    let source = session.resolve_path(path).source;
    match execute_map(session, path, depth, output_limit) {
        Err(e) => with_path_source(make_error_op(path, "map", &e, batch), source),
        Ok(t) => {
            let message = cat3("map: ", path, " (ok)");
            let mut op = with_path_source(
                make_op(path, "map", OpStatus::Success, message.as_str(), batch),
                source,
            );
            let mut output = cat3("--- Map: ", path, " ---\n");
            output.append(t.as_str());
            op.output = Some(output);
            assert(op@ =~~= map_result(session@, path@, depth, output_limit, batch));
            op
        },
    }
}

} // verus!
