//! What can go wrong with a patch, and how it is reported.

use vstd::prelude::*;
use vstd::string::*;

use crate::lists;
use crate::numbers;
use crate::numbers::decimal_of;
use crate::similarity::{Similarity, Threshold};
use crate::text;
use crate::text::{copy_texts, join_texts, lines_of};

verus! {

broadcast use crate::lists::group_lists;

/// A place in a file that is like the pattern that was looked for.
#[derive(Debug, Clone)]
pub struct ClosestMatch {
    /// The line of the place, from one.
    pub line_number: usize,
    pub similarity: Similarity,
    pub actual_content: String,
    pub suggestion: String,
}

/// The contents of a `ClosestMatch`.
#[verifier::ext_equal]
pub struct ClosestMatchView {
    pub line_number: usize,
    pub similarity: Similarity,
    pub actual_content: Seq<char>,
    pub suggestion: Seq<char>,
}

impl View for ClosestMatch {
    type V = ClosestMatchView;

    open spec fn view(&self) -> ClosestMatchView {
        ClosestMatchView {
            line_number: self.line_number,
            similarity: self.similarity,
            actual_content: self.actual_content@,
            suggestion: self.suggestion@,
        }
    }
}

/// The contents of a list of matches.
pub open spec fn match_views(v: Seq<ClosestMatch>) -> Seq<ClosestMatchView> {
    v.map_values(|m: ClosestMatch| m@)
}

/// An error in fields, for a reader that acts on them.
#[derive(Debug, Clone)]
pub struct LLMErrorOutput {
    /// The file that the error is about.
    pub file: String,
    /// The hunk that failed, from zero, where one did.
    pub failed_hunk: Option<usize>,
    /// How many hunks were applied before the failure.
    pub applied_hunks: usize,
    /// The lines that were looked for.
    pub expected_context: Vec<String>,
    /// What stands at the nearest place.
    pub actual_content: String,
    /// How similar the closest match is, where there is one.
    pub similarity_score: Option<Similarity>,
    /// What to do about it, as a word.
    pub suggested_action: String,
    /// What to do about it, as a sentence.
    pub recovery_hint: String,
}

/// The contents of an `LLMErrorOutput`.
#[verifier::ext_equal]
pub struct ErrorOutputView {
    pub file: Seq<char>,
    pub failed_hunk: Option<usize>,
    pub applied_hunks: usize,
    pub expected_context: Seq<Seq<char>>,
    pub actual_content: Seq<char>,
    pub similarity_score: Option<Similarity>,
    pub suggested_action: Seq<char>,
    pub recovery_hint: Seq<char>,
}

impl View for LLMErrorOutput {
    type V = ErrorOutputView;

    open spec fn view(&self) -> ErrorOutputView {
        ErrorOutputView {
            file: self.file@,
            failed_hunk: self.failed_hunk,
            applied_hunks: self.applied_hunks,
            expected_context: lists::texts(self.expected_context@),
            actual_content: self.actual_content@,
            similarity_score: self.similarity_score,
            suggested_action: self.suggested_action@,
            recovery_hint: self.recovery_hint@,
        }
    }
}

/// A pattern that a file does not hold.
#[derive(Debug)]
pub struct ContextNotFoundData {
    pub path: String,
    pub pattern: Vec<String>,
    pub hint: Option<String>,
    pub total_lines: usize,
    pub file_excerpt: String,
    pub closest_matches: Vec<ClosestMatch>,
}

/// The contents of a `ContextNotFoundData`.
#[verifier::ext_equal]
pub struct NotFoundView {
    pub path: Seq<char>,
    pub pattern: Seq<Seq<char>>,
    pub hint: Option<Seq<char>>,
    pub total_lines: usize,
    pub file_excerpt: Seq<char>,
    pub closest_matches: Seq<ClosestMatchView>,
}

impl View for ContextNotFoundData {
    type V = NotFoundView;

    open spec fn view(&self) -> NotFoundView {
        NotFoundView {
            path: self.path@,
            pattern: lists::texts(self.pattern@),
            hint: lists::opt_text(self.hint),
            total_lines: self.total_lines,
            file_excerpt: self.file_excerpt@,
            closest_matches: match_views(self.closest_matches@),
        }
    }
}

/// Why an operation failed.
#[derive(Debug)]
pub enum PatchError {
    /// The patch text is malformed.
    Parse(String),
    /// The file is not there.
    FileNotFound(String),
    /// The lines of a hunk are not in the file.
    ContextNotFound(Box<ContextNotFoundData>),
    /// The lines of a hunk are in the file more than once.
    AmbiguousContext {
        path: String,
        count: usize,
        match_positions: Vec<usize>,
        context_at_each: Vec<String>,
    },
    /// The file system refused, in its own words.
    Io(String),
    /// The file is there already.
    FileAlreadyExists(String),
    /// The path is a symbolic link.
    SymlinkRejected(String),
}

/// The contents of a `PatchError`.
#[verifier::ext_equal]
pub enum PatchErrorView {
    Parse(Seq<char>),
    FileNotFound(Seq<char>),
    ContextNotFound(NotFoundView),
    AmbiguousContext {
        path: Seq<char>,
        count: usize,
        match_positions: Seq<usize>,
        context_at_each: Seq<Seq<char>>,
    },
    Io(Seq<char>),
    FileAlreadyExists(Seq<char>),
    SymlinkRejected(Seq<char>),
}

impl View for PatchError {
    type V = PatchErrorView;

    open spec fn view(&self) -> PatchErrorView {
        match self {
            PatchError::Parse(m) => PatchErrorView::Parse(m@),
            PatchError::FileNotFound(p) => PatchErrorView::FileNotFound(p@),
            PatchError::ContextNotFound(d) => PatchErrorView::ContextNotFound(d@),
            PatchError::AmbiguousContext {
                path,
                count,
                match_positions,
                context_at_each,
            } => PatchErrorView::AmbiguousContext {
                path: path@,
                count: *count,
                match_positions: match_positions@,
                context_at_each: lists::texts(context_at_each@),
            },
            PatchError::Io(m) => PatchErrorView::Io(m@),
            PatchError::FileAlreadyExists(p) => PatchErrorView::FileAlreadyExists(p@),
            PatchError::SymlinkRejected(p) => PatchErrorView::SymlinkRejected(p@),
        }
    }
}

/// Numbers in a row, with commas between them.
pub open spec fn positions_text(positions: Seq<usize>) -> Seq<char> {
    text::join(positions.map_values(|n: usize| numbers::decimal(n as nat)), ", "@)
}

/// Numbers in a row, with commas between them.
pub fn fmt_positions(positions: &Vec<usize>) -> (r: String)
    ensures
        r@ == positions_text(positions@),
{
    let mut parts: Vec<String> = Vec::new();
    let ghost all = positions@.map_values(|n: usize| numbers::decimal(n as nat));
    let mut i: usize = 0;
    while i < positions.len()
        invariant
            0 <= i <= positions@.len(),
            all == positions@.map_values(|n: usize| numbers::decimal(n as nat)),
            lists::texts(parts@) == all.take(i as int),
        decreases positions@.len() - i,
    {
        parts.push(decimal_of(positions[i]));
        i += 1;
        assert(lists::texts(parts@) =~= all.take(i as int));
    }
    assert(all.take(i as int) =~= all);
    join_texts(&parts, ", ")
}

/// The first lines of an excerpt, indented.
pub open spec fn indented(excerpt: Seq<Seq<char>>, k: int) -> Seq<char>
    decreases k,
{
    if k <= 0 {
        Seq::empty()
    } else {
        indented(excerpt, k - 1) + "    "@ + excerpt[k - 1] + "\n"@
    }
}

/// How many lines of an excerpt a message shows.
pub open spec fn shown_lines(excerpt: Seq<char>) -> int {
    if text::lines(excerpt).len() < 3 {
        text::lines(excerpt).len() as int
    } else {
        3
    }
}

/// The message of a pattern that was not found.
pub open spec fn not_found_message(d: NotFoundView) -> Seq<char> {
    let head = "Context not found: "@ + d.path + "\n  file has "@ + numbers::decimal(
        d.total_lines as nat,
    ) + " lines, expected "@ + numbers::decimal(d.pattern.len()) + " line pattern\n"@;
    let hinted = match d.hint {
        Some(h) => head + "  Hint attempted: "@ + h + "\n"@,
        None => head,
    };
    if d.file_excerpt.len() == 0 {
        hinted
    } else {
        hinted + "  Nearest file content:\n"@ + indented(
            text::lines(d.file_excerpt),
            shown_lines(d.file_excerpt),
        )
    }
}

/// The message of an error.
pub open spec fn error_message(e: PatchErrorView) -> Seq<char> {
    match e {
        PatchErrorView::Parse(m) => "parse error: "@ + m,
        PatchErrorView::FileNotFound(p) => "file not found: "@ + p,
        PatchErrorView::ContextNotFound(d) => not_found_message(d),
        PatchErrorView::AmbiguousContext { path, count, match_positions, .. } => {
            "ambiguous context: "@ + path + " ("@ + numbers::decimal(count as nat)
                + " matches at lines: "@ + positions_text(match_positions) + ")"@
        },
        PatchErrorView::Io(m) => "io error: "@ + m,
        PatchErrorView::FileAlreadyExists(p) => "file already exists: "@ + p,
        PatchErrorView::SymlinkRejected(p) => "symlink rejected: "@ + p,
    }
}

/// A similarity from which a fuzzy match is worth a try: 0.8.
pub const FUZZY_HINT_UNITS: u64 = 800_000_000_000_000_000;

/// An error output about a file alone.
pub open spec fn plain_output(
    file: Seq<char>,
    content: Seq<char>,
    action: Seq<char>,
    hint: Seq<char>,
) -> ErrorOutputView {
    ErrorOutputView {
        file,
        failed_hunk: None,
        applied_hunks: 0,
        expected_context: Seq::empty(),
        actual_content: content,
        similarity_score: None,
        suggested_action: action,
        recovery_hint: hint,
    }
}

/// An error in fields.
pub open spec fn error_output(e: PatchErrorView) -> ErrorOutputView {
    match e {
        PatchErrorView::ContextNotFound(d) => ErrorOutputView {
            file: d.path,
            failed_hunk: None,
            applied_hunks: 0,
            expected_context: d.pattern,
            actual_content: if d.closest_matches.len() > 0 {
                d.closest_matches[0].actual_content
            } else {
                d.file_excerpt
            },
            similarity_score: if d.closest_matches.len() > 0 {
                Some(d.closest_matches[0].similarity)
            } else {
                None
            },
            suggested_action: if d.closest_matches.len() > 0
                && d.closest_matches[0].similarity.reaches(Threshold { units: FUZZY_HINT_UNITS }) {
                "fuzzy_match_available"@
            } else {
                "re_read_file"@
            },
            recovery_hint: "File '"@ + d.path + "' has "@ + numbers::decimal(d.total_lines as nat)
                + " lines. Check if context was modified or moved."@,
        },
        PatchErrorView::AmbiguousContext { path, count, match_positions, context_at_each } => {
            ErrorOutputView {
                file: path,
                failed_hunk: None,
                applied_hunks: 0,
                expected_context: seq![
                    "Ambiguous: "@ + numbers::decimal(count as nat) + " matches found"@,
                ],
                actual_content: text::join(context_at_each, "\n---\n"@),
                similarity_score: None,
                suggested_action: "add_disambiguating_context_lines"@,
                recovery_hint: "Add more context lines to disambiguate "@ + numbers::decimal(
                    count as nat,
                ) + " matches at lines: "@ + positions_text(match_positions),
            }
        },
        PatchErrorView::FileNotFound(p) => plain_output(
            p,
            Seq::empty(),
            "create_target_file_before_patch"@,
            "File '"@ + p + "' does not exist. Create it first or check path."@,
        ),
        PatchErrorView::FileAlreadyExists(p) => plain_output(
            p,
            Seq::empty(),
            "use_update_operation_for_existing_file"@,
            "File '"@ + p + "' already exists. Use Update instead of Add."@,
        ),
        PatchErrorView::Parse(m) => plain_output(
            Seq::empty(),
            m,
            "correct_syntax_in_patch_block"@,
            "Patch syntax error: "@ + m,
        ),
        PatchErrorView::SymlinkRejected(p) => plain_output(
            p,
            Seq::empty(),
            "resolve_symlink"@,
            "Path '"@ + p + "' is a symlink. Resolve to real path first."@,
        ),
        PatchErrorView::Io(m) => plain_output(
            Seq::empty(),
            m,
            "check_permissions"@,
            "IO error: "@ + m,
        ),
    }
}

/// The three texts, one after the other.
pub fn cat3(a: &str, b: &str, c: &str) -> (r: String)
    ensures
        r@ == a@ + b@ + c@,
{
    let mut s = a.to_owned();
    s.append(b);
    s.append(c);
    s
}

/// The two texts, one after the other.
pub fn cat2(a: &str, b: &str) -> (r: String)
    ensures
        r@ == a@ + b@,
{
    let mut s = a.to_owned();
    s.append(b);
    s
}

/// An error output about a file alone.
fn plain(file: &str, content: &str, action: &str, hint: String) -> (r: LLMErrorOutput)
    ensures
        r@ == plain_output(file@, content@, action@, hint@),
{
    let r = LLMErrorOutput {
        file: file.to_owned(),
        failed_hunk: None,
        applied_hunks: 0,
        expected_context: Vec::new(),
        actual_content: content.to_owned(),
        similarity_score: None,
        suggested_action: action.to_owned(),
        recovery_hint: hint,
    };
    assert(r@ =~~= plain_output(file@, content@, action@, hint@));
    r
}

impl ContextNotFoundData {
    /// The message of a pattern that was not found.
    pub fn message(&self) -> (r: String)
        ensures
            r@ == not_found_message(self@),
    {
        let mut s = cat2("Context not found: ", self.path.as_str());
        s.append("\n  file has ");
        s.append(decimal_of(self.total_lines).as_str());
        s.append(" lines, expected ");
        s.append(decimal_of(self.pattern.len()).as_str());
        s.append(" line pattern\n");
        match &self.hint {
            Some(h) => {
                s.append("  Hint attempted: ");
                s.append(h.as_str());
                s.append("\n");
            },
            None => {},
        }
        if !self.file_excerpt.as_str().is_empty() {
            s.append("  Nearest file content:\n");
            let lines = lines_of(self.file_excerpt.as_str());
            let n: usize = if lines.len() < 3 {
                lines.len()
            } else {
                3
            };
            let ghost all = text::lines(self.file_excerpt@);
            let ghost head = s@;
            let mut i: usize = 0;
            assert(head + indented(all, 0) =~= head);
            while i < n
                invariant
                    0 <= i <= n <= lines@.len(),
                    lists::texts(lines@) == all,
                    s@ == head + indented(all, i as int),
                decreases n - i,
            {
                s.append("    ");
                s.append(lines[i].as_str());
                s.append("\n");
                i += 1;
                assert(lines@[i - 1]@ == all[i - 1]);
                assert(s@ =~= head + indented(all, i as int));
            }
        }
        s
    }
}

impl PatchError {
    /// The message of the error.
    pub fn message(&self) -> (r: String)
        ensures
            r@ == error_message(self@),
    {
        match self {
            PatchError::Parse(m) => cat2("parse error: ", m.as_str()),
            PatchError::FileNotFound(p) => cat2("file not found: ", p.as_str()),
            PatchError::ContextNotFound(d) => d.message(),
            PatchError::AmbiguousContext { path, count, match_positions, .. } => {
                let mut s = cat3("ambiguous context: ", path.as_str(), " (");
                s.append(decimal_of(*count).as_str());
                s.append(" matches at lines: ");
                s.append(fmt_positions(match_positions).as_str());
                s.append(")");
                s
            },
            PatchError::Io(m) => cat2("io error: ", m.as_str()),
            PatchError::FileAlreadyExists(p) => cat2("file already exists: ", p.as_str()),
            PatchError::SymlinkRejected(p) => cat2("symlink rejected: ", p.as_str()),
        }
    }

    /// The error in fields, for a reader that acts on them.
    pub fn to_json(&self) -> (r: LLMErrorOutput)
        ensures
            r@ == error_output(self@),
    {
        proof {
            reveal_strlit("");
            assert(""@ =~= Seq::<char>::empty());
        }
        match self {
            PatchError::ContextNotFound(d) => {
                let ghost all = d@.closest_matches;
                let mut hint = cat3("File '", d.path.as_str(), "' has ");
                hint.append(decimal_of(d.total_lines).as_str());
                hint.append(" lines. Check if context was modified or moved.");
                let found = d.closest_matches.len() > 0;
                assert(found ==> all[0] == d.closest_matches@[0]@);
                let score: Option<Similarity> = if found {
                    Some(d.closest_matches[0].similarity)
                } else {
                    None
                };
                let actual = if found {
                    d.closest_matches[0].actual_content.clone()
                } else {
                    d.file_excerpt.clone()
                };
                let near = found && d.closest_matches[0].similarity.meets(
                    Threshold { units: FUZZY_HINT_UNITS },
                );
                let r = LLMErrorOutput {
                    file: d.path.clone(),
                    failed_hunk: None,
                    applied_hunks: 0,
                    expected_context: copy_texts(&d.pattern),
                    actual_content: actual,
                    similarity_score: score,
                    suggested_action: if near {
                        "fuzzy_match_available".to_owned()
                    } else {
                        "re_read_file".to_owned()
                    },
                    recovery_hint: hint,
                };
                assert(r@ =~~= error_output(self@));
                r
            },
            PatchError::AmbiguousContext { path, count, match_positions, context_at_each } => {
                let n = decimal_of(*count);
                let mut expected: Vec<String> = Vec::new();
                expected.push(cat3("Ambiguous: ", n.as_str(), " matches found"));
                let mut hint = cat3(
                    "Add more context lines to disambiguate ",
                    n.as_str(),
                    " matches at lines: ",
                );
                hint.append(fmt_positions(match_positions).as_str());
                let r = LLMErrorOutput {
                    file: path.clone(),
                    failed_hunk: None,
                    applied_hunks: 0,
                    expected_context: expected,
                    actual_content: join_texts(context_at_each, "\n---\n"),
                    similarity_score: None,
                    suggested_action: "add_disambiguating_context_lines".to_owned(),
                    recovery_hint: hint,
                };
                assert(r@ =~~= error_output(self@));
                r
            },
            PatchError::FileNotFound(p) => plain(
                p.as_str(),
                "",
                "create_target_file_before_patch",
                cat3("File '", p.as_str(), "' does not exist. Create it first or check path."),
            ),
            PatchError::FileAlreadyExists(p) => plain(
                p.as_str(),
                "",
                "use_update_operation_for_existing_file",
                cat3("File '", p.as_str(), "' already exists. Use Update instead of Add."),
            ),
            PatchError::Parse(m) => plain(
                "",
                m.as_str(),
                "correct_syntax_in_patch_block",
                cat2("Patch syntax error: ", m.as_str()),
            ),
            PatchError::SymlinkRejected(p) => plain(
                p.as_str(),
                "",
                "resolve_symlink",
                cat3("Path '", p.as_str(), "' is a symlink. Resolve to real path first."),
            ),
            PatchError::Io(m) => plain(
                "",
                m.as_str(),
                "check_permissions",
                cat2("IO error: ", m.as_str()),
            ),
        }
    }
}

} // verus!
