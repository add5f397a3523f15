//! What a change looks like.

use vstd::prelude::*;
use vstd::string::*;

use crate::error::cat3;
use crate::lists;
use crate::numbers;
use crate::numbers::decimal_of;
use crate::paths;
use crate::paths::file_name_of;
use crate::sizes;
use crate::sizes::shortened;

verus! {

/// The difference between two texts, line by line, that `similar::udiff::unified_diff` writes
/// with its usual algorithm, with so many lines round each change, under two names.
pub uninterp spec fn unified_text(
    old_text: Seq<char>,
    new_text: Seq<char>,
    radius: usize,
    old_name: Seq<char>,
    new_name: Seq<char>,
) -> Seq<char>;

/// `similar::udiff::unified_diff` with its usual algorithm: the difference depends on the two
/// texts, the lines round each change and the two names alone. It doubles the number of lines,
/// so twice that number has to be a `usize`.
#[verifier::external_body]
fn unified(
    old_text: &str,
    new_text: &str,
    radius: usize,
    old_name: &str,
    new_name: &str,
) -> (r: String)
    requires
        radius <= usize::MAX / 2,
    ensures
        r@ == unified_text(old_text@, new_text@, radius, old_name@, new_name@),
{
    similar::udiff::unified_diff(
        similar::Algorithm::default(),
        old_text,
        new_text,
        radius,
        Some((old_name, new_name)),
    )
}

/// The most bytes of a difference that are shown.
pub const MAX_DIFF_LEN: usize = 4000;

/// How many lines are shown round each change.
pub const CONTEXT_RADIUS: usize = 3;

/// A difference as it is shown: cut to size, or nothing where it is empty.
pub open spec fn shown_diff(diff: Seq<char>) -> Option<Seq<char>> {
    if diff.len() == 0 {
        None
    } else {
        Some(sizes::shorten(diff, MAX_DIFF_LEN as int, "\n... [diff truncated]"@))
    }
}

/// A difference as it is shown.
pub fn show_diff(diff: &str) -> (r: Option<String>)
    ensures
        lists::opt_text(r) == shown_diff(diff@),
{
    if diff.is_empty() {
        None
    } else {
        Some(shortened(diff, MAX_DIFF_LEN, "\n... [diff truncated]"))
    }
}

/// The difference that an update makes.
pub open spec fn update_diff(before: Seq<char>, after: Seq<char>, path: Seq<char>) -> Option<
    Seq<char>,
> {
    shown_diff(unified_text(before, after, CONTEXT_RADIUS, path, path))
}

/// The difference that an update makes.
pub fn generate_unified_diff(original: &str, modified: &str, display_path: &str) -> (r: Option<
    String,
>)
    ensures
        lists::opt_text(r) == update_diff(original@, modified@, display_path@),
{
    let diff = unified(original, modified, CONTEXT_RADIUS, display_path, display_path);
    show_diff(diff.as_str())
}

/// The first `k` lines, each marked as one that comes in.
pub open spec fn marked_lines(lines: Seq<Seq<char>>, k: int) -> Seq<char>
    decreases k,
{
    if k <= 0 {
        Seq::empty()
    } else {
        marked_lines(lines, k - 1) + "+"@ + lines[k - 1] + "\n"@
    }
}

/// The name under which a new file is shown.
pub open spec fn shown_name(path: Seq<char>) -> Seq<char> {
    match paths::file_name(path) {
        Some(name) => name,
        None => Seq::empty(),
    }
}

/// The difference that a new file makes.
pub open spec fn add_diff(path: Seq<char>, lines: Seq<Seq<char>>) -> Option<Seq<char>> {
    if lines.len() == 0 {
        None
    } else {
        Some(
            sizes::shorten(
                "--- /dev/null\n+++ "@ + shown_name(path) + "\n@@ -0,0 +1,"@ + numbers::decimal(
                    lines.len(),
                ) + " @@\n"@ + marked_lines(lines, lines.len() as int),
                MAX_DIFF_LEN as int,
                "\n... [diff truncated]"@,
            ),
        )
    }
}

/// The difference that a new file makes.
pub fn generate_add_diff(path: &str, new_lines: &Vec<String>) -> (r: Option<String>)
    ensures
        lists::opt_text(r) == add_diff(path@, lists::texts(new_lines@)),
{
    let ghost lines = lists::texts(new_lines@);
    let n: usize = new_lines.len();
    if n == 0 {
        return None;
    }
    let name = match file_name_of(path) {
        Some(name) => name,
        None => {
            let none = String::new();
            assert(none@ =~= Seq::empty());
            none
        },
    };
    let mut out = cat3("--- /dev/null\n+++ ", name.as_str(), "\n@@ -0,0 +1,");
    out.append(decimal_of(n).as_str());
    out.append(" @@\n");
    let ghost head = out@;
    let mut body = String::new();
    let mut i: usize = 0;
    assert(body@ =~= marked_lines(lines, 0));
    while i < n
        invariant
            0 <= i <= n == new_lines@.len(),
            lines == lists::texts(new_lines@),
            body@ == marked_lines(lines, i as int),
        decreases n - i,
    {
        body.append("+");
        body.append(new_lines[i].as_str());
        body.append("\n");
        i += 1;
    }
    out.append(body.as_str());
    Some(shortened(out.as_str(), MAX_DIFF_LEN, "\n... [diff truncated]"))
}

} // verus!
