//! Paths, as texts with `/` between their components.

use vstd::prelude::*;
use vstd::string::*;

use crate::error::cat2;
use crate::lists;
use crate::text;
use crate::text::{
    after_prefix, chars_of, has_prefix, join_rows, push_all, same_chars, same_text, slice_of,
    split_at_each, string_of, text_of,
};

verus! {

broadcast use crate::lists::group_lists;

// ---------------------------------------------------------------------------
// Components
// ---------------------------------------------------------------------------

/// Whether a path starts at the root.
pub open spec fn is_absolute(path: Seq<char>) -> bool {
    path.len() > 0 && path[0] == '/'
}

/// Whether a piece of a path counts. An empty one does not, nor does a `.`.
pub open spec fn counts(piece: Seq<char>) -> bool {
    piece.len() > 0 && piece != "."@
}

/// Those of the first `k` pieces that count.
pub open spec fn counted(pieces: Seq<Seq<char>>, k: int) -> Seq<Seq<char>>
    decreases k,
{
    if k <= 0 {
        Seq::empty()
    } else if counts(pieces[k - 1]) {
        counted(pieces, k - 1).push(pieces[k - 1])
    } else {
        counted(pieces, k - 1)
    }
}

/// The components of a path. A relative path that starts with a `.` and has nothing else that
/// counts has the `.` alone.
pub open spec fn components(path: Seq<char>) -> Seq<Seq<char>> {
    let pieces = text::split(path, '/');
    let parts = counted(pieces, pieces.len() as int);
    if parts.len() == 0 && !is_absolute(path) && pieces[0] == "."@ {
        seq!["."@]
    } else {
        parts
    }
}

/// A path without what does not count.
pub open spec fn normal(path: Seq<char>) -> Seq<char> {
    if is_absolute(path) {
        "/"@ + text::join(components(path), "/"@)
    } else {
        text::join(components(path), "/"@)
    }
}

/// The components of a path.
fn components_of(path: &Vec<char>) -> (r: Vec<Vec<char>>)
    ensures
        lists::rows(r@) == components(path@),
{
    let pieces = split_at_each(path, '/');
    let ghost all = lists::rows(pieces@);
    let absolute = path.len() > 0 && path[0] == '/';
    let dot = chars_of(".");
    let mut out: Vec<Vec<char>> = Vec::new();
    let mut i: usize = 0;
    assert(lists::rows(out@) =~= counted(all, 0));
    while i < pieces.len()
        invariant
            0 <= i <= pieces@.len(),
            all == lists::rows(pieces@),
            dot@ == "."@,
            lists::rows(out@) == counted(all, i as int),
        decreases pieces@.len() - i,
    {
        let piece = &pieces[i];
        assert(all[i as int] == piece@);
        if piece.len() > 0 && !same_chars(piece, &dot) {
            let copy = slice_of(piece, 0, piece.len());
            assert(copy@ =~= piece@);
            out.push(copy);
        }
        i += 1;
    }
    proof {
        text::law_join_of_split(path@, '/');
        assert(all[0] == pieces@[0]@);
    }
    assert(lists::rows(out@).len() == out@.len());
    if out.len() == 0 && !absolute && same_chars(&pieces[0], &dot) {
        out.push(dot);
        assert(lists::rows(out@) =~= seq!["."@]);
    }
    out
}

/// A path without what does not count: repeated and last slashes, and each `.` beside other
/// components.
pub fn normal_path(path: &str) -> (r: String)
    ensures
        r@ == normal(path@),
{
    let v = chars_of(path);
    let joined = join_rows(&components_of(&v), "/");
    if v.len() > 0 && v[0] == '/' {
        let mut out = chars_of("/");
        push_all(&mut out, &joined);
        string_of(&out)
    } else {
        string_of(&joined)
    }
}

/// A path with slashes in place of backslashes.
pub open spec fn with_slashes(path: Seq<char>) -> Seq<char> {
    path.map_values(
        |c: char|
            if c == '\\' {
                '/'
            } else {
                c
            },
    )
}

/// A path with slashes in place of backslashes.
pub fn slashed(path: &str) -> (r: String)
    ensures
        r@ == with_slashes(path@),
{
    let v = chars_of(path);
    let mut out: Vec<char> = Vec::new();
    let mut i: usize = 0;
    while i < v.len()
        invariant
            0 <= i <= v@.len(),
            out@ == with_slashes(v@).take(i as int),
        decreases v@.len() - i,
    {
        let c = if v[i] == '\\' {
            '/'
        } else {
            v[i]
        };
        out.push(c);
        i += 1;
        assert(out@ =~= with_slashes(v@).take(i as int));
    }
    assert(out@ =~= with_slashes(path@));
    string_of(&out)
}

/// A path that can be compared: with slashes between its components, and without what does not
/// count.
pub fn normalize_path(path: &str) -> (r: String)
    ensures
        r@ == normal(with_slashes(path@)),
{
    normal_path(slashed(path).as_str())
}

/// Whether two paths are the same but for what does not count.
pub fn paths_equivalent(a: &str, b: &str) -> (r: bool)
    ensures
        r == (normal(with_slashes(a@)) == normal(with_slashes(b@))),
{
    same_text(normalize_path(a).as_str(), normalize_path(b).as_str())
}

// ---------------------------------------------------------------------------
// Names
// ---------------------------------------------------------------------------

/// The name of the file of a path, where its last component is one.
pub open spec fn file_name(path: Seq<char>) -> Option<Seq<char>> {
    let parts = components(path);
    if parts.len() == 0 || parts.last() == ".."@ || parts.last() == "."@ {
        None
    } else {
        Some(parts.last())
    }
}

/// The place of the last `.` in a name among the first `k` characters, or -1.
pub open spec fn last_dot(name: Seq<char>, k: int) -> int
    decreases k,
{
    if k <= 0 {
        -1
    } else if name[k - 1] == '.' {
        k - 1
    } else {
        last_dot(name, k - 1)
    }
}

/// What follows the last `.` of the name of the file, unless the name starts with it.
pub open spec fn extension(path: Seq<char>) -> Option<Seq<char>> {
    match file_name(path) {
        Some(name) => {
            let dot = last_dot(name, name.len() as int);
            if dot > 0 {
                Some(name.skip(dot + 1))
            } else {
                None
            }
        },
        None => None,
    }
}

/// The name of the file of a path.
pub fn file_name_of(path: &str) -> (r: Option<String>)
    ensures
        lists::opt_text(r) == file_name(path@),
{
    let parts = components_of(&chars_of(path));
    let n: usize = parts.len();
    if n == 0 {
        return None;
    }
    let last = &parts[n - 1];
    assert(lists::rows(parts@).last() == last@);
    if same_chars(last, &chars_of("..")) || same_chars(last, &chars_of(".")) {
        None
    } else {
        Some(string_of(last))
    }
}

/// What follows the last `.` of the name of the file.
pub fn extension_of(path: &str) -> (r: Option<String>)
    ensures
        lists::opt_text(r) == extension(path@),
{
    match file_name_of(path) {
        Some(name) => {
            let v = chars_of(name.as_str());
            let n: usize = v.len();
            let mut k: usize = n;
            while k > 0 && v[k - 1] != '.'
                invariant
                    0 <= k <= n == v@.len(),
                    last_dot(v@, n as int) == last_dot(v@, k as int),
                decreases k,
            {
                k -= 1;
            }
            if k > 1 {
                let ext = text_of(&v, k, n);
                assert(ext@ =~= v@.skip(k as int));
                Some(ext)
            } else {
                None
            }
        },
        None => None,
    }
}

// ---------------------------------------------------------------------------
// Joining and resolving
// ---------------------------------------------------------------------------

/// Whether a path starts with a letter and a colon, as a drive is written.
pub open spec fn has_drive(path: Seq<char>) -> bool {
    path.len() >= 2 && (('a' <= path[0] <= 'z') || ('A' <= path[0] <= 'Z')) && path[1] == ':'
}

/// Whether a directory is written with a drive, or with backslashes at its start. The paths below
/// it then have backslashes between their components.
pub open spec fn drives(base: Seq<char>) -> bool {
    has_drive(base) || text::starts_with(base, "\\\\"@)
}

/// A path below the directory `base`, with slashes between its components.
pub open spec fn plain(base: Seq<char>, path: Seq<char>) -> Seq<char> {
    if drives(base) {
        with_slashes(path)
    } else {
        path
    }
}

/// Whether a path needs no directory that it is seen from: it starts at the root, or with a drive
/// as the directory does.
pub open spec fn rooted(base: Seq<char>, path: Seq<char>) -> bool {
    is_absolute(path) || (has_drive(base) && has_drive(path))
}

/// A path seen from a directory: itself where it needs none.
pub open spec fn joined(base: Seq<char>, path: Seq<char>) -> Seq<char> {
    if rooted(base, path) || base.len() == 0 {
        path
    } else if base.last() == '/' {
        base + path
    } else {
        base + "/"@ + path
    }
}

/// Whether a path starts with a letter and a colon.
fn names_drive(v: &Vec<char>) -> (r: bool)
    ensures
        r == has_drive(v@),
{
    v.len() >= 2 && (('a' <= v[0] && v[0] <= 'z') || ('A' <= v[0] && v[0] <= 'Z')) && v[1] == ':'
}

/// A path below the directory `base`, with slashes between its components.
pub fn plain_path(base: &str, path: &str) -> (r: String)
    ensures
        r@ == plain(base@, path@),
{
    let b = chars_of(base);
    if names_drive(&b) || has_prefix(&b, "\\\\") {
        slashed(path)
    } else {
        path.to_owned()
    }
}

/// Whether a path needs no directory that it is seen from.
fn is_rooted(base: &str, path: &str) -> (r: bool)
    ensures
        r == rooted(base@, path@),
{
    let p = chars_of(path);
    (p.len() > 0 && p[0] == '/') || (names_drive(&chars_of(base)) && names_drive(&p))
}

/// A path seen from a directory.
pub fn join_path(base: &str, path: &str) -> (r: String)
    ensures
        r@ == joined(base@, path@),
{
    let b = chars_of(base);
    let n: usize = b.len();
    if is_rooted(base, path) || n == 0 {
        path.to_owned()
    } else if b[n - 1] == '/' {
        cat2(base, path)
    } else {
        let mut out = cat2(base, "/");
        out.append(path);
        out
    }
}

/// How a path was given.
#[derive(Debug, Clone, Copy, PartialEq, Eq)]
pub enum PathSource {
    /// Seen from the working directory.
    Relative,
    /// From the root.
    Absolute,
    /// From the home directory, with `~`.
    Home,
}

/// How a path was given, as a word.
pub open spec fn source_text(source: PathSource) -> Seq<char> {
    match source {
        PathSource::Relative => "relative"@,
        PathSource::Absolute => "absolute"@,
        PathSource::Home => "home"@,
    }
}

impl PathSource {
    /// How a path was given, as a word.
    pub fn as_str(&self) -> (r: &'static str)
        ensures
            r@ == source_text(*self),
    {
        match self {
            PathSource::Relative => "relative",
            PathSource::Absolute => "absolute",
            PathSource::Home => "home",
        }
    }
}

/// What follows the `~` of a path that starts at the home directory.
pub open spec fn behind_home(path: Seq<char>) -> Option<Seq<char>> {
    if path == "~"@ {
        Some(Seq::empty())
    } else {
        text::strip_prefix(path, "~/"@)
    }
}

/// The full path of a path as it was given, with all its components, and how it was given.
pub open spec fn located(
    base: Seq<char>,
    home: Option<Seq<char>>,
    path: Seq<char>,
) -> (Seq<char>, PathSource) {
    let dir = plain(base, base);
    let given = plain(base, path);
    if home is Some && behind_home(given) is Some {
        (joined(plain(base, home->0), behind_home(given)->0), PathSource::Home)
    } else if rooted(dir, given) {
        (given, PathSource::Absolute)
    } else {
        (joined(dir, given), PathSource::Relative)
    }
}

/// The full path, in normal form, of a path as it was given, and how it was given.
pub open spec fn resolved(
    base: Seq<char>,
    home: Option<Seq<char>>,
    path: Seq<char>,
) -> (Seq<char>, PathSource) {
    let (full, source) = located(base, home, path);
    (normal(full), source)
}

/// A path as it was given, resolved.
#[derive(Debug)]
pub struct ResolvedPath {
    /// The full path, in normal form.
    pub full_path: String,
    /// The full path with all its components.
    pub shown_path: String,
    pub source: PathSource,
}

/// What follows the `~` of a path.
fn after_home(path: &str) -> (r: Option<String>)
    ensures
        lists::opt_text(r) == behind_home(path@),
{
    if same_text(path, "~") {
        let none = String::new();
        assert(none@ =~= Seq::empty());
        return Some(none);
    }
    match after_prefix(&chars_of(path), "~/") {
        Some(rest) => Some(string_of(&rest)),
        None => None,
    }
}

/// Resolves a path as it was given.
pub fn resolve_path(base: &str, home: &Option<String>, path: &str) -> (r: ResolvedPath)
    ensures
        (r.full_path@, r.source) == resolved(base@, lists::opt_text(*home), path@),
        (r.shown_path@, r.source) == located(base@, lists::opt_text(*home), path@),
{
    let (shown_path, source) = locate_path(base, home, path);
    ResolvedPath { full_path: normal_path(shown_path.as_str()), shown_path, source }
}

/// The full path of a path as it was given, and how it was given.
fn locate_path(base: &str, home: &Option<String>, path: &str) -> (r: (String, PathSource))
    ensures
        (r.0@, r.1) == located(base@, lists::opt_text(*home), path@),
{
    let dir = plain_path(base, base);
    let given = plain_path(base, path);
    if let Some(h) = home {
        if let Some(rest) = after_home(given.as_str()) {
            let own = plain_path(base, h.as_str());
            return (join_path(own.as_str(), rest.as_str()), PathSource::Home);
        }
    }
    if is_rooted(dir.as_str(), given.as_str()) {
        (given, PathSource::Absolute)
    } else {
        (join_path(dir.as_str(), given.as_str()), PathSource::Relative)
    }
}

// ---------------------------------------------------------------------------
// Directories
// ---------------------------------------------------------------------------

/// What the paths of the contents of a directory start with.
pub open spec fn inside(dir: Seq<char>) -> Seq<char> {
    if dir == "/"@ || dir.len() == 0 {
        dir
    } else {
        dir + "/"@
    }
}

/// What follows the directory in a path inside it.
pub open spec fn below(dir: Seq<char>, path: Seq<char>) -> Option<Seq<char>> {
    match text::strip_prefix(path, inside(dir)) {
        Some(rest) => if rest.len() > 0 && path != dir {
            Some(rest)
        } else {
            None
        },
        None => None,
    }
}

/// What follows the directory in a path inside it.
pub fn below_dir(dir: &str, path: &str) -> (r: Option<String>)
    ensures
        lists::opt_text(r) == below(dir@, path@),
{
    let mut prefix = dir.to_owned();
    if !(same_text(dir, "/") || dir.is_empty()) {
        prefix.append("/");
    }
    match after_prefix(&chars_of(path), prefix.as_str()) {
        Some(rest) => {
            if rest.len() > 0 && !same_text(path, dir) {
                Some(string_of(&rest))
            } else {
                None
            }
        },
        None => None,
    }
}

// ---------------------------------------------------------------------------
// Laws
// ---------------------------------------------------------------------------

/// A path in normal form is its own normal form.
pub proof fn law_normal_idempotent(path: Seq<char>)
    ensures
        normal(normal(path)) == normal(path),
        components(normal(path)) == components(path),
        is_absolute(normal(path)) == is_absolute(path),
{
    let absolute = is_absolute(path);
    let pieces = text::split(path, '/');
    let parts = components(path);
    let n = pieces.len() as int;
    text::law_split_pieces(path, '/');
    text::law_join_of_split(path, '/');
    lemma_counted(pieces, n);
    reveal_strlit("/");
    reveal_strlit(".");
    assert("/"@ =~= seq!['/']);
    let body = text::join(parts, "/"@);
    if parts.len() == 0 {
        assert(body =~= Seq::empty());
        if absolute {
            assert(normal(path) =~= seq!['/']);
            let p = normal(path);
            text::lemma_first_index(p, '/', 0);
            assert(p.take(0) =~= Seq::empty());
            assert(p.skip(1) =~= Seq::empty());
            assert(text::split(Seq::<char>::empty(), '/') =~= seq![Seq::<char>::empty()]);
            assert(text::split(p, '/') =~= seq![Seq::<char>::empty(), Seq::<char>::empty()]);
            assert(counted(text::split(p, '/'), 2) =~= parts) by {
                reveal_with_fuel(counted, 3);
            }
        } else {
            assert(normal(path) =~= Seq::empty());
            let p = normal(path);
            assert(text::split(p, '/') =~= seq![Seq::<char>::empty()]);
            assert(counted(text::split(p, '/'), 1) =~= parts) by {
                reveal_with_fuel(counted, 2);
            }
        }
    } else if counted(pieces, n).len() == 0 {
        assert(body =~= "."@);
        text::lemma_first_index(body, '/', 1);
        assert(text::split(body, '/') =~= seq!["."@]);
        assert(counted(text::split(body, '/'), 1) =~= Seq::empty()) by {
            reveal_with_fuel(counted, 2);
        }
    } else {
        text::law_split_of_join(parts, '/');
        assert(parts[0].len() > 0 && !parts[0].contains('/'));
        lemma_join_starts(parts, seq!['/']);
        assert(body[0] == parts[0][0]);
        assert(parts[0].contains(parts[0][0]));
        if absolute {
            let p = "/"@ + body;
            assert(p[0] == '/');
            text::lemma_first_index(p, '/', 0);
            assert(p.take(0) =~= Seq::empty());
            assert(p.skip(1) =~= body);
            let again = seq![Seq::<char>::empty()] + parts;
            assert(text::split(p, '/') == again);
            lemma_counted_shifted(again, parts, parts.len() as int);
        } else {
            lemma_counted_all(parts, parts.len() as int);
            assert(text::split(body, '/') == parts);
        }
    }
    assert(is_absolute(normal(path)) == absolute);
    assert(components(normal(path)) == parts);
}

/// The first part of a joined text stands at its start.
proof fn lemma_join_starts(parts: Seq<Seq<char>>, sep: Seq<char>)
    requires
        parts.len() > 0,
        parts[0].len() > 0,
    ensures
        text::join(parts, sep).len() > 0,
        text::join(parts, sep)[0] == parts[0][0],
    decreases parts.len(),
{
    if parts.len() > 1 {
        lemma_join_starts(parts.drop_last(), sep);
    }
}

/// What counts of a path: pieces of it that count.
proof fn lemma_counted(pieces: Seq<Seq<char>>, k: int)
    requires
        0 <= k <= pieces.len(),
        forall|i: int| 0 <= i < pieces.len() ==> !(#[trigger] pieces[i]).contains('/'),
    ensures
        forall|i: int|
            0 <= i < counted(pieces, k).len() ==> {
                let p = #[trigger] counted(pieces, k)[i];
                counts(p) && !p.contains('/')
            },
        k == 0 ==> counted(pieces, k).len() == 0,
    decreases k,
{
    if k > 0 {
        lemma_counted(pieces, k - 1);
        let before = counted(pieces, k - 1);
        let after = counted(pieces, k);
        assert forall|i: int| 0 <= i < after.len() implies {
            let p = #[trigger] after[i];
            counts(p) && !p.contains('/')
        } by {
            if i < before.len() {
                assert(after[i] == before[i]);
            } else {
                assert(after[i] == pieces[k - 1]);
            }
        }
    }
}

/// Components all count.
proof fn lemma_counted_all(parts: Seq<Seq<char>>, k: int)
    requires
        0 <= k <= parts.len(),
        forall|i: int| 0 <= i < parts.len() ==> counts(#[trigger] parts[i]),
    ensures
        counted(parts, k) == parts.take(k),
    decreases k,
{
    if k > 0 {
        lemma_counted_all(parts, k - 1);
        assert(parts.take(k) =~= parts.take(k - 1).push(parts[k - 1]));
    } else {
        assert(parts.take(0) =~= Seq::empty());
    }
    assert(parts.take(parts.len() as int) =~= parts);
}

/// Components behind a root all count.
proof fn lemma_counted_shifted(again: Seq<Seq<char>>, parts: Seq<Seq<char>>, k: int)
    requires
        0 <= k <= parts.len(),
        again == seq![Seq::<char>::empty()] + parts,
        forall|i: int| 0 <= i < parts.len() ==> counts(#[trigger] parts[i]),
    ensures
        counted(again, k + 1) == parts.take(k),
    decreases k,
{
    if k > 0 {
        lemma_counted_shifted(again, parts, k - 1);
        assert(again[k] == parts[k - 1]);
        assert(parts.take(k) =~= parts.take(k - 1).push(parts[k - 1]));
    } else {
        assert(again[0].len() == 0);
        assert(counted(again, 1) == counted(again, 0));
        assert(parts.take(0) =~= Seq::empty());
    }
    assert(parts.take(parts.len() as int) =~= parts);
}

/// A `.` before a relative path that has components says nothing.
pub proof fn law_leading_dot_is_spare(path: Seq<char>)
    requires
        !is_absolute(path),
        components(path).len() > 0,
    ensures
        normal("./"@ + path) == normal(path),
{
    reveal_strlit("./");
    reveal_strlit(".");
    let p = "./"@ + path;
    text::lemma_first_index(p, '/', 1);
    assert(p.take(1) =~= "."@);
    assert(p.skip(2) =~= path);
    let pieces = text::split(path, '/');
    text::law_join_of_split(path, '/');
    assert(text::split(p, '/') =~= seq!["."@] + pieces);
    lemma_counted_behind_dot(pieces, pieces.len() as int);
}

/// A `.` in front adds nothing that counts.
proof fn lemma_counted_behind_dot(pieces: Seq<Seq<char>>, k: int)
    requires
        0 <= k <= pieces.len(),
    ensures
        counted(seq!["."@] + pieces, k + 1) == counted(pieces, k),
    decreases k,
{
    let all = seq!["."@] + pieces;
    if k > 0 {
        lemma_counted_behind_dot(pieces, k - 1);
        assert(all[k] == pieces[k - 1]);
    } else {
        assert(all[0] == "."@);
        assert(counted(all, 1) == counted(all, 0));
    }
}

} // verus!
