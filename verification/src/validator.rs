//! Advice on files that have been written, by the tools of their languages.

use vstd::prelude::*;
use vstd::string::*;

use crate::error::{cat2, cat3};
use crate::lists;
use crate::paths::extension_of;
use crate::reading;
use crate::text;
use crate::text::{chars_of, same_text, string_of, trimmed};

verus! {

broadcast use crate::lists::group_lists;

/// What a tool says a file is wrong by.
#[derive(Debug, Clone, Copy, PartialEq, Eq, Structural)]
pub enum CheckMode {
    /// By the way it ends.
    ExitCode,
    /// By what it prints.
    NonEmptyStdout,
}

/// A tool to run on a file.
#[derive(Debug)]
pub struct Check {
    pub program: String,
    pub args: Vec<String>,
    pub mode: CheckMode,
    /// The extension that the tool is for.
    pub extension: String,
}

/// The contents of a `Check`.
#[verifier::ext_equal]
pub struct CheckView {
    pub program: Seq<char>,
    pub args: Seq<Seq<char>>,
    pub mode: CheckMode,
    pub extension: Seq<char>,
}

impl View for Check {
    type V = CheckView;

    open spec fn view(&self) -> CheckView {
        CheckView {
            program: self.program@,
            args: lists::texts(self.args@),
            mode: self.mode,
            extension: self.extension@,
        }
    }
}

/// The tool for an extension, to be run on the file `path`.
pub open spec fn check_for(ext: Seq<char>, path: Seq<char>) -> Option<CheckView> {
    if ext == "rs"@ {
        Some(
            CheckView {
                program: "rustfmt"@,
                args: seq!["--check"@, path],
                mode: CheckMode::ExitCode,
                extension: ext,
            },
        )
    } else if ext == "tf"@ || ext == "hcl"@ {
        Some(
            CheckView {
                program: "terraform"@,
                args: seq!["fmt"@, "-check"@, path],
                mode: CheckMode::ExitCode,
                extension: ext,
            },
        )
    } else if ext == "py"@ {
        Some(
            CheckView {
                program: "python"@,
                args: seq!["-m"@, "py_compile"@, path],
                mode: CheckMode::ExitCode,
                extension: ext,
            },
        )
    } else if ext == "json"@ {
        Some(
            CheckView {
                program: "python3"@,
                args: seq!["-m"@, "json.tool"@, path],
                mode: CheckMode::ExitCode,
                extension: ext,
            },
        )
    } else if ext == "js"@ || ext == "jsx"@ {
        Some(
            CheckView {
                program: "node"@,
                args: seq!["--check"@, path],
                mode: CheckMode::ExitCode,
                extension: ext,
            },
        )
    } else if ext == "go"@ {
        Some(
            CheckView {
                program: "gofmt"@,
                args: seq!["-l"@, path],
                mode: CheckMode::NonEmptyStdout,
                extension: ext,
            },
        )
    } else if ext == "sh"@ || ext == "bash"@ {
        Some(
            CheckView {
                program: "bash"@,
                args: seq!["-n"@, path],
                mode: CheckMode::ExitCode,
                extension: ext,
            },
        )
    } else {
        None
    }
}

/// A check with one or two options before the path.
fn check(program: &str, first: &str, second: &str, path: &str, mode: CheckMode, ext: &str) -> (r:
    Check)
    ensures
        r@ == (CheckView {
            program: program@,
            args: if second@.len() == 0 {
                seq![first@, path@]
            } else {
                seq![first@, second@, path@]
            },
            mode,
            extension: ext@,
        }),
{
    let mut args: Vec<String> = Vec::new();
    args.push(first.to_owned());
    if !second.is_empty() {
        args.push(second.to_owned());
    }
    args.push(path.to_owned());
    let r = Check { program: program.to_owned(), args, mode, extension: ext.to_owned() };
    assert(r@.args =~= (if second@.len() == 0 {
        seq![first@, path@]
    } else {
        seq![first@, second@, path@]
    }));
    r
}

/// The tool for the file that is to be at `original_path`, to be run on `tool_path`.
pub fn plan_check(tool_path: &str, original_path: &str) -> (r: Option<Check>)
    ensures
        match r {
            Some(c) => check_for(
                reading::extension_or_none(original_path@),
                tool_path@,
            ) == Some(c@),
            None => check_for(reading::extension_or_none(original_path@), tool_path@) is None,
        },
{
    let found = match extension_of(original_path) {
        Some(ext) => ext,
        None => {
            let none = String::new();
            assert(none@ =~= Seq::empty());
            none
        },
    };
    let ext = found.as_str();
    proof {
        reveal_strlit("");
        reveal_strlit("-check");
        reveal_strlit("py_compile");
        reveal_strlit("json.tool");
    }
    if same_text(ext, "rs") {
        Some(check("rustfmt", "--check", "", tool_path, CheckMode::ExitCode, ext))
    } else if same_text(ext, "tf") || same_text(ext, "hcl") {
        Some(check("terraform", "fmt", "-check", tool_path, CheckMode::ExitCode, ext))
    } else if same_text(ext, "py") {
        Some(check("python", "-m", "py_compile", tool_path, CheckMode::ExitCode, ext))
    } else if same_text(ext, "json") {
        Some(check("python3", "-m", "json.tool", tool_path, CheckMode::ExitCode, ext))
    } else if same_text(ext, "js") || same_text(ext, "jsx") {
        Some(check("node", "--check", "", tool_path, CheckMode::ExitCode, ext))
    } else if same_text(ext, "go") {
        Some(check("gofmt", "-l", "", tool_path, CheckMode::NonEmptyStdout, ext))
    } else if same_text(ext, "sh") || same_text(ext, "bash") {
        Some(check("bash", "-n", "", tool_path, CheckMode::ExitCode, ext))
    } else {
        None
    }
}

/// How the running of a tool went.
#[derive(Debug)]
pub enum RunOutcome {
    /// The tool is not installed.
    NotFound,
    /// It ran to its end.
    Finished {
        success: bool,
        /// How it ended, in words.
        status: String,
        stdout: String,
        stderr: String,
    },
    /// It could not be run, and why.
    Failed(String),
    /// It took too long.
    TimedOut,
}

/// The contents of a `RunOutcome`.
#[verifier::ext_equal]
pub enum RunView {
    NotFound,
    Finished { success: bool, status: Seq<char>, stdout: Seq<char>, stderr: Seq<char> },
    Failed(Seq<char>),
    TimedOut,
}

impl View for RunOutcome {
    type V = RunView;

    open spec fn view(&self) -> RunView {
        match self {
            RunOutcome::NotFound => RunView::NotFound,
            RunOutcome::Finished { success, status, stdout, stderr } => RunView::Finished {
                success: *success,
                status: status@,
                stdout: stdout@,
                stderr: stderr@,
            },
            RunOutcome::Failed(m) => RunView::Failed(m@),
            RunOutcome::TimedOut => RunView::TimedOut,
        }
    }
}

/// Whether a text holds nothing but the white space of ASCII.
pub open spec fn ascii_blank(s: Seq<char>) -> bool {
    forall|i: int|
        0 <= i < s.len() ==> #[trigger] s[i] == ' ' || s[i] == '\t' || s[i] == '\n' || s[i] == '\r'
            || s[i] == '\u{c}'
}

/// What went wrong, in the words of the tool.
pub open spec fn detail(status: Seq<char>, first: Seq<char>, second: Seq<char>) -> Seq<char> {
    if text::trim(first).len() > 0 {
        text::trim(first)
    } else if text::trim(second).len() > 0 {
        text::trim(second)
    } else {
        "exit code "@ + status
    }
}

/// The advice that the running of a tool gives.
pub open spec fn advice(c: CheckView, run: RunView) -> Seq<Seq<char>> {
    match run {
        RunView::NotFound => seq![
            "Advisory: "@ + c.program + " not found — skipping "@ + c.extension + " syntax check"@,
        ],
        RunView::Failed(m) => seq!["validator '"@ + c.program + "' failed: "@ + m],
        RunView::TimedOut => seq!["validator '"@ + c.program + "' timed out after 2s"@],
        RunView::Finished { success, status, stdout, stderr } => {
            if c.mode is NonEmptyStdout && !ascii_blank(stdout) {
                seq!["Advisory (gofmt): file needs formatting"@]
            } else if success {
                Seq::empty()
            } else if c.mode is NonEmptyStdout {
                seq![
                    "Advisory ("@ + c.program + "): "@ + detail(status, stderr, Seq::empty()),
                ]
            } else {
                seq!["Advisory ("@ + c.program + "): "@ + detail(status, stderr, stdout)]
            }
        },
    }
}

/// Whether the running of a tool speaks against the file. A tool that could not look at it does
/// not.
pub open spec fn issue(c: CheckView, run: RunView) -> bool {
    match run {
        RunView::Finished { success, stdout, .. } => !success || (c.mode is NonEmptyStdout
            && !ascii_blank(stdout)),
        _ => false,
    }
}

/// Whether a text holds nothing but the white space of ASCII.
fn is_blank(s: &str) -> (r: bool)
    ensures
        r == ascii_blank(s@),
{
    let v = chars_of(s);
    let mut i: usize = 0;
    while i < v.len()
        invariant
            0 <= i <= v@.len(),
            v@ == s@,
            forall|j: int|
                0 <= j < i ==> #[trigger] v@[j] == ' ' || v@[j] == '\t' || v@[j] == '\n' || v@[j]
                    == '\r' || v@[j] == '\u{c}',
        decreases v@.len() - i,
    {
        let c = v[i];
        if !(c == ' ' || c == '\t' || c == '\n' || c == '\r' || c == '\u{c}') {
            assert(!(s@[i as int] == ' '));
            return false;
        }
        i += 1;
    }
    true
}

/// What went wrong, in the words of the tool.
fn say_detail(status: &str, first: &str, second: &str) -> (r: String)
    ensures
        r@ == detail(status@, first@, second@),
{
    let a = trimmed(&chars_of(first));
    if a.len() > 0 {
        return string_of(&a);
    }
    let b = trimmed(&chars_of(second));
    if b.len() > 0 {
        return string_of(&b);
    }
    cat2("exit code ", status)
}

/// One text.
fn one(s: String) -> (r: Vec<String>)
    ensures
        lists::texts(r@) == seq![s@],
{
    let mut v: Vec<String> = Vec::new();
    v.push(s);
    assert(lists::texts(v@) =~= seq![s@]);
    v
}

/// Whether the running of a tool speaks against the file.
pub fn has_issue(check: &Check, run: &RunOutcome) -> (r: bool)
    ensures
        r == issue(check@, run@),
{
    match run {
        RunOutcome::Finished { success, stdout, .. } => !*success || match check.mode {
            CheckMode::NonEmptyStdout => !is_blank(stdout.as_str()),
            CheckMode::ExitCode => false,
        },
        _ => false,
    }
}

/// The advice that the running of a tool gives.
pub fn judge(check: &Check, run: &RunOutcome) -> (r: Vec<String>)
    ensures
        lists::texts(r@) == advice(check@, run@),
{
    let program = check.program.as_str();
    match run {
        RunOutcome::NotFound => {
            let mut s = cat3("Advisory: ", program, " not found — skipping ");
            s.append(check.extension.as_str());
            s.append(" syntax check");
            one(s)
        },
        RunOutcome::Failed(m) => {
            let mut s = cat3("validator '", program, "' failed: ");
            s.append(m.as_str());
            one(s)
        },
        RunOutcome::TimedOut => one(cat3("validator '", program, "' timed out after 2s")),
        RunOutcome::Finished { success, status, stdout, stderr } => {
            let by_output = match check.mode {
                CheckMode::NonEmptyStdout => true,
                CheckMode::ExitCode => false,
            };
            if by_output && !is_blank(stdout.as_str()) {
                return one("Advisory (gofmt): file needs formatting".to_owned());
            }
            if *success {
                let none: Vec<String> = Vec::new();
                assert(lists::texts(none@) =~= Seq::empty());
                return none;
            }
            proof {
                reveal_strlit("");
                assert(""@ =~= Seq::<char>::empty());
            }
            let second = if by_output {
                ""
            } else {
                stdout.as_str()
            };
            let what = say_detail(status.as_str(), stderr.as_str(), second);
            let mut s = cat3("Advisory (", program, "): ");
            s.append(what.as_str());
            one(s)
        },
    }
}

} // verus!
