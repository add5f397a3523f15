//! What holds of paths and of what is listed, said of their parts alone.

use vstd::prelude::*;

use crate::change_laws;
use crate::map_laws;
use crate::paths;
use crate::paths::PathSource;
use crate::reader;
use crate::text;
use crate::text_laws;
use crate::workspace;

verus! {

// ---------------------------------------------------------------------------
// Parts of paths
// ---------------------------------------------------------------------------

/// The pieces of two texts with a separator between them.
pub proof fn law_split_in_two(a: Seq<char>, b: Seq<char>, c: char)
    ensures
        text::split(a + seq![c] + b, c) == text::split(a, c) + text::split(b, c),
{
    let (x, y) = (text::split(a, c), text::split(b, c));
    text::law_join_of_split(a, c);
    text::law_join_of_split(b, c);
    text::law_split_pieces(a, c);
    text::law_split_pieces(b, c);
    text_laws::law_joined(x, y, Seq::empty(), seq![c]);
    assert forall|i: int| 0 <= i < (x + y).len() implies !(#[trigger] (x + y)[i]).contains(c) by {
        if i < x.len() {
            assert((x + y)[i] == x[i]);
        } else {
            assert((x + y)[i] == y[i - x.len()]);
        }
    }
    text::law_split_of_join(x + y, c);
}

/// Whether a piece of a path is a name, or goes up.
pub open spec fn is_step(piece: Seq<char>) -> bool {
    piece.len() > 0 && piece != seq!['.']
}

/// The pieces that count.
proof fn lemma_steps(pieces: Seq<Seq<char>>, k: int)
    requires
        0 <= k <= pieces.len(),
    ensures
        paths::counted(pieces, k) == pieces.take(k).filter(|p: Seq<char>| is_step(p)),
    decreases k,
{
    reveal(Seq::filter);
    let keep = |p: Seq<char>| is_step(p);
    reveal_strlit(".");
    assert("."@ =~= seq!['.']);
    if k > 0 {
        lemma_steps(pieces, k - 1);
        assert(pieces.take(k).drop_last() =~= pieces.take(k - 1));
        assert(pieces.take(k).last() == pieces[k - 1]);
    } else {
        assert(pieces.take(0).filter(keep) =~= Seq::<Seq<char>>::empty());
    }
}

/// A path in normal form has the steps of the path, in their order, and nothing else: pieces that
/// are empty or a single point go, and those that go up stay. It starts at the root where the path
/// does.
pub proof fn law_normal_path(path: Seq<char>)
    requires
        text::split(path, '/').filter(|p: Seq<char>| is_step(p)).len() > 0,
    ensures
        ({
            let steps = text::split(path, '/').filter(|p: Seq<char>| is_step(p));
            paths::normal(path) == (if path[0] == '/' {
                seq!['/'] + text::join(steps, seq!['/'])
            } else {
                text::join(steps, seq!['/'])
            })
        }),
        path.len() > 0,
{
    reveal_strlit("/");
    assert("/"@ =~= seq!['/']);
    let pieces = text::split(path, '/');
    lemma_steps(pieces, pieces.len() as int);
    assert(pieces.take(pieces.len() as int) =~= pieces);
    if path.len() == 0 {
        text::lemma_first_index(path, '/', 0);
        assert(pieces =~= seq![path]);
        assert(!paths::counts(pieces[0]));
        reveal_with_fuel(paths::counted, 2);
        assert(paths::counted(pieces, 1).len() == 0);
    }
}

/// A path without steps is the root, where it starts there; else the point that it starts with, or
/// nothing.
pub proof fn law_normal_path_without_steps(path: Seq<char>)
    requires
        text::split(path, '/').filter(|p: Seq<char>| is_step(p)).len() == 0,
    ensures
        path.len() > 0 && path[0] == '/' ==> paths::normal(path) == seq!['/'],
        path.len() > 0 && path[0] != '/' ==> paths::normal(path) == seq!['.'],
        path.len() == 0 ==> paths::normal(path).len() == 0,
{
    reveal_strlit("/");
    reveal_strlit(".");
    assert("/"@ =~= seq!['/']);
    assert("."@ =~= seq!['.']);
    let pieces = text::split(path, '/');
    lemma_steps(pieces, pieces.len() as int);
    assert(pieces.take(pieces.len() as int) =~= pieces);
    text::lemma_first_index_bound(path, '/');
    let k = text::first_index(path, '/');
    assert(pieces[0] == path.take(k)) by {
        if k >= path.len() {
            assert(path.take(k) =~= path);
        }
    }
    let none = Seq::<char>::empty();
    assert(seq!['/'] + none =~= seq!['/']);
    if path.len() > 0 && path[0] != '/' {
        lemma_first_counts(pieces, pieces.len() as int);
        assert(pieces[0].len() > 0);
        assert(text::join(seq![seq!['.']], seq!['/']) == seq!['.']);
    }
    if path.len() == 0 {
        assert(pieces[0].len() == 0);
        assert(pieces[0] != "."@);
    }
}

/// Where no piece counts, the first does not.
proof fn lemma_first_counts(pieces: Seq<Seq<char>>, k: int)
    requires
        0 < k <= pieces.len(),
        paths::counted(pieces, k).len() == 0,
    ensures
        !paths::counts(pieces[0]),
    decreases k,
{
    if k > 1 {
        lemma_first_counts(pieces, k - 1);
    }
}

/// Whether a text is the name of a file: it is not empty, has no slash, and is neither a point nor
/// two.
pub open spec fn is_name(name: Seq<char>) -> bool {
    name.len() > 0 && !name.contains('/') && name != seq!['.'] && name != seq!['.', '.']
}

/// The name of a file is what is behind the last slash of its path.
pub proof fn law_file_name(dir: Seq<char>, name: Seq<char>)
    requires
        is_name(name),
    ensures
        paths::file_name(name) == Some(name),
        paths::file_name(dir + seq!['/'] + name) == Some(name),
{
    reveal_strlit(".");
    reveal_strlit("..");
    assert("."@ =~= seq!['.']);
    assert(".."@ =~= seq!['.', '.']);
    law_split_in_two(dir, name, '/');
    assert forall|j: int| 0 <= j < name.len() implies name[j] != '/' by {
        assert(name.contains(name[j]));
    }
    text::lemma_first_index(name, '/', name.len() as int);
    assert(text::split(name, '/') == seq![name]);
    lemma_last_counts(text::split(name, '/'));
    let all = text::split(dir + seq!['/'] + name, '/');
    assert(all.last() == name);
    lemma_last_counts(all);
}

/// A last piece that counts is the last of those that do.
proof fn lemma_last_counts(pieces: Seq<Seq<char>>)
    requires
        pieces.len() > 0,
        paths::counts(pieces.last()),
    ensures
        paths::counted(pieces, pieces.len() as int).len() > 0,
        paths::counted(pieces, pieces.len() as int).last() == pieces.last(),
{
}

/// The last point of a name.
proof fn lemma_last_dot(name: Seq<char>, k: int, at: int)
    requires
        -1 <= at < k <= name.len(),
        at >= 0 ==> name[at] == '.',
        forall|j: int| at < j < k ==> name[j] != '.',
    ensures
        paths::last_dot(name, k) == at,
    decreases k,
{
    if k > 0 && k - 1 > at {
        lemma_last_dot(name, k - 1, at);
    }
}

/// The extension of a file is what is behind the last point of its name; a name that has no point,
/// or one at its start alone, has none.
pub proof fn law_extension(dir: Seq<char>, stem: Seq<char>, ext: Seq<char>)
    requires
        stem.len() > 0,
        !stem.contains('/'),
        !ext.contains('/'),
        !ext.contains('.'),
    ensures
        stem + seq!['.'] + ext != seq!['.', '.'] ==> paths::extension(
            dir + seq!['/'] + (stem + seq!['.'] + ext),
        ) == Some(ext),
        ext.len() > 0 ==> paths::extension(dir + seq!['/'] + ext) is None,
        ext.len() > 0 ==> paths::extension(dir + seq!['/'] + (seq!['.'] + ext)) is None,
{
    let name = stem + seq!['.'] + ext;
    let n = stem.len() as int;
    assert forall|j: int| 0 <= j < ext.len() implies ext[j] != '.' && ext[j] != '/' by {
        assert(ext.contains(ext[j]));
    }
    assert forall|j: int| n < j < name.len() implies name[j] != '.' by {
        assert(name[j] == ext[j - n - 1]);
    }
    assert(name[n] == '.');
    lemma_last_dot(name, name.len() as int, n);
    assert(name.skip(n + 1) =~= ext);
    if name != seq!['.', '.'] {
        assert(!name.contains('/')) by {
            if name.contains('/') {
                let j = choose|j: int| 0 <= j < name.len() && name[j] == '/';
                if j < n {
                    assert(stem[j] == '/');
                } else if j > n {
                    assert(ext[j - n - 1] == '/');
                }
            }
        }
        assert(name.len() >= 2);
        law_file_name(dir, name);
    }
    if ext.len() > 0 {
        assert(ext[0] != '.');
        lemma_last_dot(ext, ext.len() as int, -1);
        law_file_name(dir, ext);
        let hidden = seq!['.'] + ext;
        assert forall|j: int| 0 < j < hidden.len() implies hidden[j] != '.' && hidden[j]
            != '/' by {
            assert(hidden[j] == ext[j - 1]);
        }
        assert(hidden[1] == ext[0]);
        lemma_last_dot(hidden, hidden.len() as int, 0);
        assert(!hidden.contains('/')) by {
            if hidden.contains('/') {
                let j = choose|j: int| 0 <= j < hidden.len() && hidden[j] == '/';
                assert(j > 0);
            }
        }
        law_file_name(dir, hidden);
    }
}

/// What a path means: one that starts at the root means itself; one behind a tilde is inside the
/// home directory, where there is one; any other is inside the directory that is worked in.
pub proof fn law_where_paths_lead(
    base: Seq<char>,
    home: Seq<char>,
    path: Seq<char>,
)
    requires
        base.len() > 1,
        base[0] == '/',
        base.last() != '/',
        home.len() > 1,
        home[0] == '/',
        home.last() != '/',
    ensures
        path.len() > 0 && path[0] == '/' ==> paths::located(base, Some(home), path) == (
            path,
            PathSource::Absolute,
        ) && paths::located(base, None, path) == (path, PathSource::Absolute),
        path.len() == 0 || path[0] != '/' ==> paths::located(base, Some(home), seq!['~', '/'] + path)
            == (home + seq!['/'] + path, PathSource::Home),
        paths::located(base, Some(home), seq!['~']) == (home + seq!['/'], PathSource::Home),
        path.len() == 0 || (path[0] != '/' && path[0] != '~') ==> paths::located(
            base,
            Some(home),
            path,
        ) == (base + seq!['/'] + path, PathSource::Relative),
        path.len() == 0 || path[0] != '/' ==> paths::located(base, None, path) == (
            base + seq!['/'] + path,
            PathSource::Relative,
        ),
        paths::resolved(base, Some(home), path) == (
            paths::normal(paths::located(base, Some(home), path).0),
            paths::located(base, Some(home), path).1,
        ),
{
    reveal_strlit("/");
    reveal_strlit("~");
    reveal_strlit("~/");
    reveal_strlit("\\\\");
    assert("/"@ =~= seq!['/']);
    assert("~"@ =~= seq!['~']);
    assert("~/"@ =~= seq!['~', '/']);
    text_laws::law_ends_differ(base, "\\\\"@, 0);
    assert(!paths::drives(base));
    text_laws::law_ends("~/"@, path);
    if path.len() > 0 && path[0] != '~' {
        text_laws::law_ends_differ(path, "~/"@, 0);
    }
    if path.len() == 0 {
        text_laws::law_ends_differ(path, "~/"@, 0);
    }
    let t = seq!['~', '/'] + path;
    assert(t[0] == '~');
    assert(t.len() >= 2);
    assert(home + seq!['/'] + Seq::<char>::empty() =~= home + seq!['/']);
}

/// Where the directory that is worked in names a drive, backslashes are slashes in every path, and a
/// path that names a drive means itself; elsewhere a backslash is a character like any other.
pub proof fn law_backslashes(base: Seq<char>, path: Seq<char>, i: int)
    ensures
        0 <= i < path.len() && paths::drives(base) ==> paths::plain(base, path)[i] == (
        if path[i] == '\\' {
            '/'
        } else {
            path[i]
        }),
        paths::plain(base, path).len() == path.len(),
        !paths::drives(base) ==> paths::plain(base, path) == path,
        base.len() >= 2 && base[1] == ':' && (('a' <= base[0] <= 'z') || ('A' <= base[0] <= 'Z'))
            ==> paths::drives(base),
        base.len() > 0 && base[0] == '/' ==> !paths::drives(base),
        paths::drives(base) && path.len() >= 2 && path[1] == ':' && (('a' <= path[0] <= 'z') || (
        'A' <= path[0] <= 'Z')) && base.len() >= 2 && base[1] == ':' && (('a' <= base[0] <= 'z') || (
        'A' <= base[0] <= 'Z')) ==> paths::located(base, None, path) == (
            paths::plain(base, path),
            PathSource::Absolute,
        ),
{
    reveal_strlit("\\\\");
    if base.len() > 0 && base[0] == '/' {
        text_laws::law_ends_differ(base, "\\\\"@, 0);
    }
    let (b, p) = (paths::plain(base, base), paths::plain(base, path));
    if paths::drives(base) && base.len() >= 2 && path.len() >= 2 {
        assert(b[0] == (if base[0] == '\\' {
            '/'
        } else {
            base[0]
        }));
        assert(b[1] == (if base[1] == '\\' {
            '/'
        } else {
            base[1]
        }));
        assert(p[0] == (if path[0] == '\\' {
            '/'
        } else {
            path[0]
        }));
        assert(p[1] == (if path[1] == '\\' {
            '/'
        } else {
            path[1]
        }));
    }
}

// ---------------------------------------------------------------------------
// Globs
// ---------------------------------------------------------------------------

/// Where a text is put in the order.
proof fn lemma_text_place(list: Seq<Seq<char>>, s: Seq<char>, from: int)
    requires
        0 <= from <= list.len(),
    ensures
        from <= reader::text_place(list, s, from) <= list.len(),
        forall|i: int|
            from <= i < reader::text_place(list, s, from) ==> !text::text_before(
                s,
                #[trigger] list[i],
                0,
            ),
        reader::text_place(list, s, from) < list.len() ==> text::text_before(
            s,
            list[reader::text_place(list, s, from)],
            0,
        ),
    decreases list.len() - from,
{
    if from < list.len() && !text::text_before(s, list[from], 0) {
        lemma_text_place(list, s, from + 1);
    }
}

/// Whether a candidate is shown as a text: it is a file inside the directory, and the text is its
/// path from there.
pub open spec fn shown_as(base: Seq<char>, c: reader::CandidateView, s: Seq<char>) -> bool {
    &&& c.is_file
    &&& paths::below(paths::plain(base, base), paths::plain(base, c.path)) matches Some(rest) && s
        == paths::with_slashes(rest)
}

/// The files that a pattern selects are those of the candidates that are files inside the
/// directory, as seen from it, in the order of their names, and no others.
pub proof fn law_selected_files(
    base: Seq<char>,
    list: Seq<reader::CandidateView>,
    k: int,
)
    requires
        0 <= k <= list.len(),
    ensures
        ({
            let out = reader::selected(base, list, k);
            &&& forall|i: int, j: int|
                0 <= i < j < out.len() ==> !text::text_before(
                    #[trigger] out[j],
                    #[trigger] out[i],
                    0,
                )
            &&& forall|i: int|
                0 <= i < out.len() ==> exists|c: int|
                    0 <= c < k && shown_as(base, list[c], #[trigger] out[i])
            &&& forall|c: int, s: Seq<char>|
                0 <= c < k && #[trigger] shown_as(base, list[c], s) ==> out.contains(s)
        }),
    decreases k,
{
    if k > 0 {
        law_selected_files(base, list, k - 1);
        let before = reader::selected(base, list, k - 1);
        let out = reader::selected(base, list, k);
        let here = paths::below(
            paths::plain(base, base),
            paths::plain(base, list[k - 1].path),
        );
        if here is Some && list[k - 1].is_file {
            let x = paths::with_slashes(here->0);
            lemma_text_place(before, x, 0);
            let p = reader::text_place(before, x, 0);
            assert(out == before.insert(p, x));
            assert(out[p] == x);
            assert(shown_as(base, list[k - 1], x));
            assert forall|i: int, j: int| 0 <= i < j < out.len() implies !text::text_before(
                #[trigger] out[j],
                #[trigger] out[i],
                0,
            ) by {
                let a = if i < p {
                    i
                } else {
                    i - 1
                };
                let b = if j < p {
                    j
                } else {
                    j - 1
                };
                if i != p {
                    assert(out[i] == before[a]);
                }
                if j != p {
                    assert(out[j] == before[b]);
                }
                if i == p {
                    text::law_text_order(x, before[p], 0);
                    if text::text_before(before[b], x, 0) {
                        map_laws::law_order_is_transitive(before[b], x, before[p], 0);
                    }
                }
            }
            assert forall|i: int| 0 <= i < out.len() implies exists|c: int|
                0 <= c < k && shown_as(base, list[c], #[trigger] out[i]) by {
                if i == p {
                    assert(shown_as(base, list[k - 1], out[i]));
                } else {
                    let a = if i < p {
                        i
                    } else {
                        i - 1
                    };
                    assert(out[i] == before[a]);
                    let c = choose|c: int| 0 <= c < k - 1 && shown_as(base, list[c], before[a]);
                    assert(shown_as(base, list[c], out[i]));
                }
            }
            assert forall|c: int, s: Seq<char>|
                0 <= c < k && #[trigger] shown_as(base, list[c], s) implies out.contains(s) by {
                if c == k - 1 {
                    assert(s == x);
                } else {
                    assert(before.contains(s));
                    let a = choose|a: int| 0 <= a < before.len() && before[a] == s;
                    if a < p {
                        assert(out[a] == s);
                    } else {
                        assert(out[a + 1] == s);
                    }
                }
            }
        } else {
            assert forall|i: int| 0 <= i < out.len() implies exists|c: int|
                0 <= c < k && shown_as(base, list[c], #[trigger] out[i]) by {
                let c = choose|c: int| 0 <= c < k - 1 && shown_as(base, list[c], before[i]);
                assert(shown_as(base, list[c], out[i]));
            }
        }
    }
}

// ---------------------------------------------------------------------------
// The items of a directory
// ---------------------------------------------------------------------------

/// What is behind a directory in the path of something inside it.
pub open spec fn rest_of(dir: Seq<char>, path: Seq<char>) -> Seq<char> {
    if dir.len() == 0 || dir == seq!['/'] {
        path.skip(dir.len() as int)
    } else {
        path.skip(dir.len() as int + 1)
    }
}

/// What is inside a directory, and what is behind it.
proof fn lemma_below(dir: Seq<char>, path: Seq<char>)
    ensures
        paths::below(dir, path) == (if change_laws::is_inside(dir, path) {
            Some(rest_of(dir, path))
        } else {
            None
        }),
{
    reveal_strlit("/");
    assert("/"@ =~= seq!['/']);
}

/// Whether something on the disk is an item of a directory under a name.
pub open spec fn disk_has(s: workspace::SessionView, dir: Seq<char>, name: Seq<char>, j: int) -> bool {
    &&& change_laws::is_inside(dir, s.disk[j].path)
    &&& rest_of(dir, s.disk[j].path) == name
    &&& !name.contains('/')
    &&& workspace::virtual_node(s, s.disk[j].path) matches Some(node) && !(node is Symlink) && !(
    node is Other)
}

/// Whether a staged file is an item of a directory under a name, or inside one.
pub open spec fn stage_has(
    s: workspace::SessionView,
    dir: Seq<char>,
    name: Seq<char>,
    i: int,
) -> bool {
    &&& s.staged[i].content is Some
    &&& change_laws::is_inside(dir, s.staged[i].path)
    &&& text::split(rest_of(dir, s.staged[i].path), '/')[0] == name
}

/// The items on the disk.
proof fn lemma_disk_items(s: workspace::SessionView, dir: Seq<char>, name: Seq<char>, k: int)
    requires
        0 <= k <= s.disk.len(),
    ensures
        workspace::has_item(workspace::disk_items(s, dir, k), name) <==> exists|j: int|
            0 <= j < k && #[trigger] disk_has(s, dir, name, j),
    decreases k,
{
    if k > 0 {
        lemma_disk_items(s, dir, name, k - 1);
        let before = workspace::disk_items(s, dir, k - 1);
        let after = workspace::disk_items(s, dir, k);
        let path = s.disk[k - 1].path;
        lemma_below(dir, path);
        let rest = rest_of(dir, path);
        text::lemma_first_index_bound(rest, '/');
        if !rest.contains('/') {
            assert(text::first_index(rest, '/') == rest.len()) by {
                if text::first_index(rest, '/') < rest.len() {
                    assert(rest.contains(rest[text::first_index(rest, '/')]));
                }
            }
        }
        let item = workspace::item_of(rest, workspace::virtual_node(s, path));
        if change_laws::is_inside(dir, path) && !rest.contains('/') && item is Some {
            assert(after == workspace::with_item(before, item->0));
            assert(disk_has(s, dir, rest, k - 1));
            lemma_with_item(before, item->0, name);
        } else {
            if rest.contains('/') {
                let j = choose|j: int| 0 <= j < rest.len() && rest[j] == '/';
                if text::first_index(rest, '/') >= rest.len() {
                    assert(rest[j] != '/');
                }
            }
            assert(after == before);
            assert(!disk_has(s, dir, name, k - 1));
        }
        if workspace::has_item(before, name) {
            let j = choose|j: int| 0 <= j < k - 1 && #[trigger] disk_has(s, dir, name, j);
            assert(0 <= j < k && disk_has(s, dir, name, j));
        }
        if exists|j: int| 0 <= j < k && #[trigger] disk_has(s, dir, name, j) {
            let j = choose|j: int| 0 <= j < k && #[trigger] disk_has(s, dir, name, j);
            if j < k - 1 {
                assert(0 <= j < k - 1 && disk_has(s, dir, name, j));
            }
        }
    }
}

/// An item more.
proof fn lemma_with_item(
    list: Seq<workspace::ItemView>,
    item: workspace::ItemView,
    name: Seq<char>,
)
    ensures
        workspace::has_item(workspace::with_item(list, item), name) <==> workspace::has_item(
            list,
            name,
        ) || item.name == name,
{
    let after = workspace::with_item(list, item);
    if workspace::has_item(list, name) {
        let i = choose|i: int| 0 <= i < list.len() && (#[trigger] list[i]).name == name;
        assert(after[i].name == name);
    }
    if item.name == name && !workspace::has_item(list, item.name) {
        assert(after[list.len() as int].name == name);
    }
    if workspace::has_item(after, name) && item.name != name {
        let i = choose|i: int| 0 <= i < after.len() && (#[trigger] after[i]).name == name;
        assert(list[i].name == name);
    }
}

/// The first piece of what is behind a directory.
proof fn lemma_first_piece(rest: Seq<char>)
    ensures
        text::split(rest, '/')[0] == rest.take(text::first_index(rest, '/')),
{
    text::lemma_first_index_bound(rest, '/');
    let k = text::first_index(rest, '/');
    if k >= rest.len() {
        assert(rest.take(k) =~= rest);
    }
}

/// The items that are staged.
proof fn lemma_staged_items(
    s: workspace::SessionView,
    dir: Seq<char>,
    list: Seq<workspace::ItemView>,
    name: Seq<char>,
    k: int,
)
    requires
        0 <= k <= s.staged.len(),
    ensures
        workspace::has_item(workspace::staged_items(s, dir, list, k), name) <==> (
        workspace::has_item(list, name) || exists|i: int|
            0 <= i < k && #[trigger] stage_has(s, dir, name, i)),
    decreases k,
{
    if k > 0 {
        lemma_staged_items(s, dir, list, name, k - 1);
        let before = workspace::staged_items(s, dir, list, k - 1);
        let f = s.staged[k - 1];
        lemma_below(dir, f.path);
        let rest = rest_of(dir, f.path);
        lemma_first_piece(rest);
        if change_laws::is_inside(dir, f.path) && f.content is Some {
            let end = text::first_index(rest, '/');
            let item = workspace::ItemView { name: rest.take(end), is_dir: end < rest.len() };
            lemma_with_item(before, item, name);
            assert(stage_has(s, dir, item.name, k - 1));
        } else {
            assert(!stage_has(s, dir, name, k - 1));
        }
        if exists|i: int| 0 <= i < k && #[trigger] stage_has(s, dir, name, i) {
            let i = choose|i: int| 0 <= i < k && #[trigger] stage_has(s, dir, name, i);
            if i < k - 1 {
                assert(0 <= i < k - 1 && stage_has(s, dir, name, i));
            }
        }
        if exists|i: int| 0 <= i < k - 1 && #[trigger] stage_has(s, dir, name, i) {
            let i = choose|i: int| 0 <= i < k - 1 && #[trigger] stage_has(s, dir, name, i);
            assert(0 <= i < k && stage_has(s, dir, name, i));
        }
    }
}

/// A directory lists what is in it on the disk and is still seen, and what is staged in it or
/// further in, each under its name. What is to go is not listed, nor are links.
pub proof fn law_items_of_directory(s: workspace::SessionView, dir: Seq<char>, name: Seq<char>)
    ensures
        workspace::has_item(workspace::listing(s, dir), name) <==> ((exists|j: int|
            0 <= j < s.disk.len() && #[trigger] disk_has(s, dir, name, j)) || (exists|i: int|
            0 <= i < s.staged.len() && #[trigger] stage_has(s, dir, name, i))),
{
    lemma_disk_items(s, dir, name, s.disk.len() as int);
    lemma_staged_items(
        s,
        dir,
        workspace::disk_items(s, dir, s.disk.len() as int),
        name,
        s.staged.len() as int,
    );
}

/// Whether the names of a list differ.
pub open spec fn names_differ(list: Seq<workspace::ItemView>) -> bool {
    forall|i: int, j: int|
        0 <= i < j < list.len() ==> (#[trigger] list[i]).name != (#[trigger] list[j]).name
}

/// A directory lists no name twice.
pub proof fn law_names_are_listed_once(s: workspace::SessionView, dir: Seq<char>)
    ensures
        names_differ(workspace::listing(s, dir)),
{
    lemma_disk_once(s, dir, s.disk.len() as int);
    lemma_staged_once(
        s,
        dir,
        workspace::disk_items(s, dir, s.disk.len() as int),
        s.staged.len() as int,
    );
}

/// An item more leaves the names different.
proof fn lemma_still_differ(list: Seq<workspace::ItemView>, item: workspace::ItemView)
    requires
        names_differ(list),
    ensures
        names_differ(workspace::with_item(list, item)),
{
    let after = workspace::with_item(list, item);
    assert forall|i: int, j: int| 0 <= i < j < after.len() implies (#[trigger] after[i]).name != (
    #[trigger] after[j]).name by {
        assert(after[i] == list[i]);
        if j < list.len() {
            assert(after[j] == list[j]);
        }
    }
}

/// No name on the disk is listed twice.
proof fn lemma_disk_once(s: workspace::SessionView, dir: Seq<char>, k: int)
    ensures
        names_differ(workspace::disk_items(s, dir, k)),
    decreases k,
{
    if k > 0 {
        lemma_disk_once(s, dir, k - 1);
        let before = workspace::disk_items(s, dir, k - 1);
        let path = s.disk[k - 1].path;
        if let Some(rest) = paths::below(dir, path) {
            if let Some(item) = workspace::item_of(rest, workspace::virtual_node(s, path)) {
                lemma_still_differ(before, item);
            }
        }
    }
}

/// No staged name is listed twice.
proof fn lemma_staged_once(
    s: workspace::SessionView,
    dir: Seq<char>,
    list: Seq<workspace::ItemView>,
    k: int,
)
    requires
        names_differ(list),
    ensures
        names_differ(workspace::staged_items(s, dir, list, k)),
    decreases k,
{
    if k > 0 {
        lemma_staged_once(s, dir, list, k - 1);
        let before = workspace::staged_items(s, dir, list, k - 1);
        if let Some(rest) = paths::below(dir, s.staged[k - 1].path) {
            let end = text::first_index(rest, '/');
            lemma_still_differ(
                before,
                workspace::ItemView { name: rest.take(end), is_dir: end < rest.len() },
            );
        }
    }
}

/// Whether a list has an item of a name and a kind.
pub open spec fn has_kind(list: Seq<workspace::ItemView>, name: Seq<char>, is_dir: bool) -> bool {
    list.contains(workspace::ItemView { name, is_dir })
}

/// What is on the disk is listed as what it is seen as: a directory where it is one.
pub proof fn law_kind_on_disk(s: workspace::SessionView, dir: Seq<char>, j: int)
    requires
        0 <= j < s.disk.len(),
        disk_has(s, dir, rest_of(dir, s.disk[j].path), j),
    ensures
        ({
            let node = workspace::virtual_node(s, s.disk[j].path)->0;
            has_kind(
                workspace::listing(s, dir),
                rest_of(dir, s.disk[j].path),
                node is Directory || node is ClosedDirectory,
            )
        }),
{
    let n = s.disk.len() as int;
    lemma_kind_on_disk(s, dir, j, n);
    let node = workspace::virtual_node(s, s.disk[j].path)->0;
    lemma_staged_keeps(
        s,
        dir,
        workspace::disk_items(s, dir, n),
        workspace::ItemView {
            name: rest_of(dir, s.disk[j].path),
            is_dir: node is Directory || node is ClosedDirectory,
        },
        s.staged.len() as int,
    );
}

/// An item that is listed stays listed.
proof fn lemma_item_stays(
    list: Seq<workspace::ItemView>,
    item: workspace::ItemView,
    x: workspace::ItemView,
)
    requires
        list.contains(x),
    ensures
        workspace::with_item(list, item).contains(x),
{
    let i = choose|i: int| 0 <= i < list.len() && list[i] == x;
    assert(workspace::with_item(list, item)[i] == x);
}

/// What is staged leaves what is listed.
proof fn lemma_staged_keeps(
    s: workspace::SessionView,
    dir: Seq<char>,
    list: Seq<workspace::ItemView>,
    x: workspace::ItemView,
    k: int,
)
    requires
        list.contains(x),
    ensures
        workspace::staged_items(s, dir, list, k).contains(x),
    decreases k,
{
    if k > 0 {
        lemma_staged_keeps(s, dir, list, x, k - 1);
        let before = workspace::staged_items(s, dir, list, k - 1);
        if let Some(rest) = paths::below(dir, s.staged[k - 1].path) {
            let end = text::first_index(rest, '/');
            lemma_item_stays(
                before,
                workspace::ItemView { name: rest.take(end), is_dir: end < rest.len() },
                x,
            );
        }
    }
}

/// A path that is the same inside a directory is the same.
proof fn lemma_same_path(dir: Seq<char>, a: Seq<char>, b: Seq<char>)
    requires
        change_laws::is_inside(dir, a),
        change_laws::is_inside(dir, b),
        rest_of(dir, a) == rest_of(dir, b),
    ensures
        a == b,
{
    let n = if dir.len() == 0 || dir == seq!['/'] {
        dir.len() as int
    } else {
        dir.len() as int + 1
    };
    assert(a =~= a.take(n) + a.skip(n));
    assert(b =~= b.take(n) + b.skip(n));
}

/// What is on the disk, as far as it was looked at.
proof fn lemma_kind_on_disk(s: workspace::SessionView, dir: Seq<char>, j: int, k: int)
    requires
        0 <= j < k <= s.disk.len(),
        disk_has(s, dir, rest_of(dir, s.disk[j].path), j),
    ensures
        ({
            let node = workspace::virtual_node(s, s.disk[j].path)->0;
            workspace::disk_items(s, dir, k).contains(
                workspace::ItemView {
                    name: rest_of(dir, s.disk[j].path),
                    is_dir: node is Directory || node is ClosedDirectory,
                },
            )
        }),
    decreases k,
{
    let path = s.disk[k - 1].path;
    let before = workspace::disk_items(s, dir, k - 1);
    let name = rest_of(dir, s.disk[j].path);
    let node = workspace::virtual_node(s, s.disk[j].path)->0;
    let x = workspace::ItemView {
        name,
        is_dir: node is Directory || node is ClosedDirectory,
    };
    lemma_below(dir, path);
    if j < k - 1 {
        lemma_kind_on_disk(s, dir, j, k - 1);
        if let Some(rest) = paths::below(dir, path) {
            if let Some(item) = workspace::item_of(rest, workspace::virtual_node(s, path)) {
                lemma_item_stays(before, item, x);
            }
        }
    } else {
        text::lemma_first_index_bound(name, '/');
        assert(text::first_index(name, '/') == name.len()) by {
            if text::first_index(name, '/') < name.len() {
                assert(name.contains(name[text::first_index(name, '/')]));
            }
        }
        assert(workspace::item_of(name, Some(node)) == Some(x));
        if workspace::has_item(before, name) {
            lemma_disk_items(s, dir, name, k - 1);
            let i = choose|i: int| 0 <= i < k - 1 && #[trigger] disk_has(s, dir, name, i);
            lemma_same_path(dir, s.disk[i].path, path);
            lemma_kind_on_disk(s, dir, i, k - 1);
        } else {
            assert(workspace::with_item(before, x)[before.len() as int] == x);
        }
    }
}

/// What is staged alone is listed as a file where it is in the directory itself, and as a directory
/// where it is further in.
pub proof fn law_kind_when_staged(s: workspace::SessionView, dir: Seq<char>, name: Seq<char>, i: int)
    requires
        0 <= i < s.staged.len(),
        stage_has(s, dir, name, i),
        forall|j: int| 0 <= j < s.disk.len() ==> !#[trigger] disk_has(s, dir, name, j),
        forall|k: int|
            0 <= k < s.staged.len() && #[trigger] stage_has(s, dir, name, k) ==> (rest_of(
                dir,
                s.staged[k].path,
            ).contains('/') <==> rest_of(dir, s.staged[i].path).contains('/')),
    ensures
        has_kind(
            workspace::listing(s, dir),
            name,
            rest_of(dir, s.staged[i].path).contains('/'),
        ),
{
    let list = workspace::disk_items(s, dir, s.disk.len() as int);
    lemma_disk_items(s, dir, name, s.disk.len() as int);
    lemma_kind_when_staged(s, dir, list, name, i, s.staged.len() as int);
}

/// What is staged, as far as it was looked at.
proof fn lemma_kind_when_staged(
    s: workspace::SessionView,
    dir: Seq<char>,
    list: Seq<workspace::ItemView>,
    name: Seq<char>,
    i: int,
    k: int,
)
    requires
        0 <= i < s.staged.len(),
        0 <= k <= s.staged.len(),
        !workspace::has_item(list, name),
        forall|m: int|
            0 <= m < s.staged.len() && #[trigger] stage_has(s, dir, name, m) ==> (rest_of(
                dir,
                s.staged[m].path,
            ).contains('/') <==> rest_of(dir, s.staged[i].path).contains('/')),
        stage_has(s, dir, name, i),
    ensures
        i < k ==> workspace::staged_items(s, dir, list, k).contains(
            workspace::ItemView {
                name,
                is_dir: rest_of(dir, s.staged[i].path).contains('/'),
            },
        ),
        workspace::has_item(workspace::staged_items(s, dir, list, k), name)
            ==> workspace::staged_items(s, dir, list, k).contains(
            workspace::ItemView {
                name,
                is_dir: rest_of(dir, s.staged[i].path).contains('/'),
            },
        ),
    decreases k,
{
    if k > 0 {
        lemma_kind_when_staged(s, dir, list, name, i, k - 1);
        let before = workspace::staged_items(s, dir, list, k - 1);
        let after = workspace::staged_items(s, dir, list, k);
        let f = s.staged[k - 1];
        let x = workspace::ItemView {
            name,
            is_dir: rest_of(dir, s.staged[i].path).contains('/'),
        };
        lemma_below(dir, f.path);
        let rest = rest_of(dir, f.path);
        lemma_first_piece(rest);
        text::lemma_first_index_bound(rest, '/');
        let end = text::first_index(rest, '/');
        assert(rest.contains('/') <==> end < rest.len()) by {
            if end < rest.len() {
                assert(rest[end] == '/');
            } else if rest.contains('/') {
                let j = choose|j: int| 0 <= j < rest.len() && rest[j] == '/';
                assert(rest[j] != '/');
            }
        }
        if change_laws::is_inside(dir, f.path) && f.content is Some {
            let item = workspace::ItemView { name: rest.take(end), is_dir: end < rest.len() };
            if before.contains(x) {
                lemma_item_stays(before, item, x);
            } else if item.name == name {
                assert(stage_has(s, dir, name, k - 1));
                assert(item == x);
                assert(after[before.len() as int] == x);
            } else {
                lemma_with_item(before, item, name);
            }
        }
    }
}

/// A directory that ends with a slash needs no other before what is inside it, and nothing is before
/// what is inside no directory.
pub proof fn law_paths_inside(base: Seq<char>, path: Seq<char>)
    requires
        path.len() == 0 || path[0] != '/',
        base.len() > 0 ==> base[0] == '/',
    ensures
        base.len() > 0 && base.last() == '/' ==> paths::located(base, None, path) == (
            base + path,
            PathSource::Relative,
        ),
        base.len() == 0 ==> paths::located(base, None, path) == (path, PathSource::Relative),
{
    reveal_strlit("\\\\");
    text_laws::law_ends_differ(base, "\\\\"@, 0);
    assert(!paths::drives(base));
}

/// The language of a file is that of its extension in lower case, where it has one.
pub proof fn law_language_of_path(dir: Seq<char>, stem: Seq<char>, ext: Seq<char>)
    requires
        stem.len() > 0,
        !stem.contains('/'),
        !ext.contains('/'),
        !ext.contains('.'),
        ext.len() > 0,
    ensures
        crate::reading::inferred(dir + seq!['/'] + (stem + seq!['.'] + ext))
            == crate::reading::language_of(crate::hints::lowercase(ext)),
{
    let name = stem + seq!['.'] + ext;
    assert(name.len() >= 3);
    law_extension(dir, stem, ext);
}

} // verus!
