//! What holds of the changes of files, said of what is there before and what is staged.

use vstd::prelude::*;

use crate::applier;
use crate::batch;
use crate::bytes;
use crate::diffs;
use crate::error;
use crate::hunk_laws;
use crate::hunks;
use crate::newlines;
use crate::numbers;
use crate::outcome;
use crate::outcome::OpStatus;
use crate::patch;
use crate::similarity::Threshold;
use crate::sizes;
use crate::text;
use crate::text_laws;
use crate::workspace;

verus! {

// ---------------------------------------------------------------------------
// What is seen
// ---------------------------------------------------------------------------

/// Whether nothing is staged for a path.
pub open spec fn untouched(s: workspace::SessionView, path: Seq<char>) -> bool {
    forall|i: int| 0 <= i < s.staged.len() ==> (#[trigger] s.staged[i]).path != path
}

/// Whether nothing on the disk has a path.
pub open spec fn not_on_disk(s: workspace::SessionView, path: Seq<char>) -> bool {
    forall|i: int| 0 <= i < s.disk.len() ==> (#[trigger] s.disk[i]).path != path
}

/// Whether a file is staged inside a directory.
pub open spec fn filled(s: workspace::SessionView, dir: Seq<char>) -> bool {
    exists|i: int|
        0 <= i < s.staged.len() && (#[trigger] s.staged[i]).content is Some && is_inside(
            dir,
            s.staged[i].path,
        )
}

/// Whether a path is that of something inside a directory.
pub open spec fn is_inside(dir: Seq<char>, path: Seq<char>) -> bool {
    let front = if dir.len() == 0 || dir == seq!['/'] {
        dir
    } else {
        dir + seq!['/']
    };
    &&& path.len() > front.len()
    &&& path.take(front.len() as int) == front
}

/// What is inside a directory.
proof fn lemma_inside(dir: Seq<char>, path: Seq<char>)
    ensures
        is_inside(dir, path) <==> crate::paths::below(dir, path) is Some,
{
    reveal_strlit("/");
    assert("/"@ =~= seq!['/']);
    let front = crate::paths::inside(dir);
    if is_inside(dir, path) {
        assert(path.take(front.len() as int) == front);
    }
}

/// Where a path is on the disk.
proof fn lemma_node_at(disk: Seq<workspace::EntryView>, path: Seq<char>, from: int, j: int)
    requires
        0 <= from <= j <= disk.len(),
        forall|i: int| from <= i < j ==> (#[trigger] disk[i]).path != path,
        j < disk.len() ==> disk[j].path == path,
    ensures
        workspace::node_from(disk, path, from) == (if j < disk.len() {
            Some(disk[j].node)
        } else {
            None
        }),
    decreases j - from,
{
    if from < j {
        lemma_node_at(disk, path, from + 1, j);
    }
}

/// A staged file is seen as it is staged, whatever is on the disk; one that is to go is not seen;
/// where nothing is staged, what is on the disk is seen; and a directory comes into being with the
/// files that are staged in it.
pub proof fn law_what_is_seen(s: workspace::SessionView, path: Seq<char>, i: int, j: int)
    requires
        workspace::session_wf(s),
    ensures
        0 <= i < s.staged.len() && s.staged[i].path == path && s.staged[i].content is Some
            ==> workspace::virtual_node(s, path) == Some(
            workspace::NodeView::File(s.staged[i].content->0),
        ),
        0 <= i < s.staged.len() && s.staged[i].path == path && s.staged[i].content is None
            && !filled(s, path) ==> workspace::virtual_node(s, path) is None,
        0 <= i < s.staged.len() && s.staged[i].path == path && s.staged[i].content is None
            && filled(s, path) ==> (workspace::virtual_node(s, path) matches Some(
            workspace::NodeView::Directory(_),
        )),
        untouched(s, path) && 0 <= j < s.disk.len() && s.disk[j].path == path && (forall|k: int|
            0 <= k < j ==> (#[trigger] s.disk[k]).path != path) ==> workspace::virtual_node(s, path)
            == Some(s.disk[j].node),
        untouched(s, path) && not_on_disk(s, path) && !filled(s, path) ==> workspace::virtual_node(
            s,
            path,
        ) is None,
        untouched(s, path) && not_on_disk(s, path) && filled(s, path) ==> (workspace::virtual_node(
            s,
            path,
        ) matches Some(workspace::NodeView::Directory(_))),
{
    workspace::lemma_staged_index(s.staged, path, 0);
    let k = workspace::staged_index(s.staged, path, 0);
    if 0 <= i < s.staged.len() && s.staged[i].path == path {
        assert(k == i) by {
            if k < i {
                assert(s.staged[k].path == s.staged[i].path);
            }
        }
    }
    if untouched(s, path) {
        assert(k == s.staged.len());
    }
    assert(filled(s, path) == workspace::implied_directory(s.staged, path)) by {
        if filled(s, path) {
            let m = choose|m: int|
                0 <= m < s.staged.len() && (#[trigger] s.staged[m]).content is Some && is_inside(
                    path,
                    s.staged[m].path,
                );
            lemma_inside(path, s.staged[m].path);
        }
        if workspace::implied_directory(s.staged, path) {
            let m = choose|m: int|
                0 <= m < s.staged.len() && (#[trigger] s.staged[m]).content is Some
                    && crate::paths::below(path, s.staged[m].path) is Some;
            lemma_inside(path, s.staged[m].path);
        }
    }
    if not_on_disk(s, path) {
        lemma_node_at(s.disk, path, 0, s.disk.len() as int);
    }
    if 0 <= j < s.disk.len() && s.disk[j].path == path && (forall|k: int|
        0 <= k < j ==> (#[trigger] s.disk[k]).path != path) {
        lemma_node_at(s.disk, path, 0, j);
    }
}

/// A path means what it leads to, in normal form.
pub proof fn law_full_paths(s: workspace::SessionView, path: Seq<char>)
    ensures
        workspace::full_path(s, path) == crate::paths::normal(
            crate::paths::located(s.base, s.home, path).0,
        ),
        workspace::path_source(s, path) == crate::paths::located(s.base, s.home, path).1,
{
}

// ---------------------------------------------------------------------------
// When changes succeed, and what they say
// ---------------------------------------------------------------------------

/// The text of the file that is seen at a path, with line feeds at the ends of its lines.
pub open spec fn text_seen(s: workspace::SessionView, full: Seq<char>) -> Option<Seq<char>> {
    match workspace::virtual_node(s, full) {
        Some(workspace::NodeView::File(b)) => match bytes::decoded(b) {
            Some(t) => Some(newlines::unix(t)),
            None => None,
        },
        _ => None,
    }
}

/// A new file is created exactly where nothing is: with the content that is given, and all of its
/// lines are new.
pub proof fn law_create(s: workspace::SessionView, path: Seq<char>, content: Seq<char>)
    requires
        text_laws::line_count(content) <= usize::MAX,
    ensures
        ({
            let full = workspace::full_path(s, path);
            let c = applier::change(s, patch::FileOpView::Add { path, content });
            &&& c is Ok <==> workspace::virtual_node(s, full) is None
            &&& c matches Ok(v) ==> v.status is Success && v.message == "File created"@ && v.files
                == seq![
                workspace::StagedView { path: full, content: Some(bytes::encoded(content)) },
            ] && (v.line_changes matches Some((b, a)) && b == 0 && a == text_laws::line_count(
                content,
            ))
            &&& c matches Err(e) ==> e == error::PatchErrorView::FileAlreadyExists(
                crate::paths::located(s.base, s.home, path).0,
            )
            &&& c matches Ok(v) ==> v.diff == diffs::add_diff(full, text::lines(content))
                && v.match_info is None
        }),
{
    text_laws::law_line_count(content);
}

/// A file is written exactly where nothing is, or a file: it has then the content that is given.
/// What is said of it is how many lines it had and how many it has.
pub proof fn law_write(s: workspace::SessionView, path: Seq<char>, content: Seq<char>)
    requires
        text_laws::line_count(content) <= usize::MAX,
    ensures
        ({
            let full = workspace::full_path(s, path);
            let node = workspace::virtual_node(s, full);
            let c = applier::change(s, patch::FileOpView::Write { path, content });
            &&& c is Ok <==> node is None || node->0 is File
            &&& c matches Ok(v) ==> v.status is Success && v.files == seq![
                workspace::StagedView { path: full, content: Some(bytes::encoded(content)) },
            ] && (v.line_changes matches Some((_, a)) && a == text_laws::line_count(content))
            &&& node is None ==> (c matches Ok(v) && v.message == "File created"@)
            &&& match text_seen(s, full) {
                Some(t) => c matches Ok(v) && v.message == numbers::decimal(
                    text_laws::line_count(t) as nat,
                ) + " → "@ + numbers::decimal(text_laws::line_count(content) as nat) + " lines"@
                    && (v.line_changes matches Some((b, _)) && b == text_laws::line_count(
                    t,
                ) as usize) && v.diff == diffs::update_diff(t, content, path),
                None => true,
            }
            &&& node matches Some(workspace::NodeView::Symlink) ==> c == Err::<
                applier::ChangeView,
                error::PatchErrorView,
            >(error::PatchErrorView::SymlinkRejected(path))
        }),
{
    text_laws::law_line_count(content);
    let full = workspace::full_path(s, path);
    if let Some(workspace::NodeView::File(b)) = workspace::virtual_node(s, full) {
        if let Some(t) = bytes::decoded(b) {
            text_laws::law_line_count(newlines::unix(t));
        }
    }
}

/// A file of text is deleted, and it is said how many lines go; where nothing is, nothing is done;
/// anything else is refused.
pub proof fn law_delete(s: workspace::SessionView, path: Seq<char>)
    ensures
        ({
            let full = workspace::full_path(s, path);
            let node = workspace::virtual_node(s, full);
            let c = applier::change(s, patch::FileOpView::Delete { path });
            &&& c is Ok <==> node is None || (node matches Some(workspace::NodeView::File(b))
                && bytes::decoded(b) is Some)
            &&& node is None ==> (c matches Ok(v) && v.status is Skipped && v.files.len() == 0
                && v.message == "File does not exist"@)
            &&& node is Some ==> (c matches Ok(v) ==> v.status is Success && v.files == seq![
                workspace::StagedView { path: full, content: None },
            ])
            &&& match text_seen(s, full) {
                Some(t) => c matches Ok(v) && v.message == "removed "@ + numbers::decimal(
                    text_laws::line_count(t) as nat,
                ) + " lines"@ && v.diff is None && v.line_changes == Some(
                    (text_laws::line_count(t) as usize, 0usize),
                ),
                None => true,
            }
        }),
{
    let full = workspace::full_path(s, path);
    if let Some(workspace::NodeView::File(b)) = workspace::virtual_node(s, full) {
        if let Some(t) = bytes::decoded(b) {
            text_laws::law_line_count(newlines::unix(t));
        }
    }
}

/// A file is moved exactly to where nothing is, with its bytes, and goes from where it was.
pub proof fn law_move(s: workspace::SessionView, from: Seq<char>, to: Seq<char>)
    ensures
        ({
            let (a, b) = (workspace::full_path(s, from), workspace::full_path(s, to));
            let (here, there) = (workspace::virtual_node(s, a), workspace::virtual_node(s, b));
            let c = applier::change(s, patch::FileOpView::Move { from, to });
            &&& c is Ok <==> here is Some && here->0 is File && there is None
            &&& c matches Ok(v) ==> v.diff is None && v.line_changes is None && v.match_info is None
            &&& c matches Ok(v) ==> v.status is Success && v.message == "File moved to "@ + to
                && v.files == seq![
                workspace::StagedView { path: b, content: Some(here->0->File_0) },
                workspace::StagedView { path: a, content: None },
            ]
            &&& here is None ==> c == Err::<applier::ChangeView, error::PatchErrorView>(
                error::PatchErrorView::FileNotFound(from),
            )
            &&& here is Some && here->0 is File && there is Some && there->0 is File ==> (c
                matches Err(e) && e is FileAlreadyExists)
        }),
{
}

/// A file of text is updated exactly where its hunks can be applied: it has then the lines that the
/// hunks leave. It is said how many lines it had and has, and it goes where it is to go, unless a
/// directory is there.
pub proof fn law_update(
    s: workspace::SessionView,
    path: Seq<char>,
    list: Seq<patch::HunkView>,
    dest: Seq<char>,
)
    ensures
        ({
            let full = workspace::full_path(s, path);
            let node = workspace::virtual_node(s, full);
            let c = applier::change(
                s,
                patch::FileOpView::Update { path, hunks: list, move_to: None },
            );
            let moved = applier::change(
                s,
                patch::FileOpView::Update { path, hunks: list, move_to: Some(dest) },
            );
            &&& c is Ok ==> node is Some && node->0 is File && bytes::decoded(node->0->File_0)
                is Some
            &&& node is None ==> c == Err::<applier::ChangeView, error::PatchErrorView>(
                error::PatchErrorView::FileNotFound(path),
            )
            &&& match text_seen(s, full) {
                None => true,
                Some(before) => match hunks::hunks_outcome(
                    text::lines(before),
                    list,
                    path,
                    s.threshold,
                    list.len() as int,
                ) {
                    Err(e) => c == Err::<applier::ChangeView, error::PatchErrorView>(e) && moved
                        == Err::<applier::ChangeView, error::PatchErrorView>(e),
                    Ok((new, results)) => {
                        let content = bytes::encoded(hunks::text_of_lines(before, new));
                        let there = workspace::virtual_node(s, workspace::full_path(s, dest));
                        &&& c matches Ok(v) && v.status is Success && v.files == seq![
                            workspace::StagedView { path: full, content: Some(content) },
                        ] && v.message == numbers::decimal(
                            text_laws::line_count(before) as nat,
                        ) + " → "@ + numbers::decimal(new.len()) + " lines"@
                        &&& c matches Ok(v) && v.diff == diffs::update_diff(
                            before,
                            hunks::text_of_lines(before, new),
                            path,
                        ) && v.match_info == hunks::match_info(results) && v.line_changes == Some(
                            (text_laws::line_count(before) as usize, new.len() as usize),
                        )
                        &&& moved matches Ok(v) ==> v.message == "File updated and moved to "@ + dest
                            && v.diff == diffs::update_diff(
                            before,
                            hunks::text_of_lines(before, new),
                            path,
                        ) && v.match_info == hunks::match_info(results)
                        &&& workspace::full_path(s, dest) != full && (there is None || there->0
                            is File) ==> (moved matches Ok(v) && v.status is Success && v.files
                            == seq![
                            workspace::StagedView {
                                path: workspace::full_path(s, dest),
                                content: Some(content),
                            },
                            workspace::StagedView { path: full, content: None },
                        ])
                        &&& workspace::full_path(s, dest) == full ==> (moved matches Ok(v)
                            && v.files == seq![
                            workspace::StagedView { path: full, content: Some(content) },
                        ])
                        &&& workspace::full_path(s, dest) != full && there is Some && !(there->0
                            is File) ==> moved is Err
                    },
                },
            }
        }),
{
    let full = workspace::full_path(s, path);
    if let Some(workspace::NodeView::File(b)) = workspace::virtual_node(s, full) {
        if let Some(t) = bytes::decoded(b) {
            text_laws::law_line_count(newlines::unix(t));
        }
    }
}

// ---------------------------------------------------------------------------
// The text of updated lines
// ---------------------------------------------------------------------------

/// Whether lines can be told apart in a text.
pub open spec fn are_lines(lines: Seq<Seq<char>>) -> bool {
    forall|i: int|
        0 <= i < lines.len() ==> !(#[trigger] lines[i]).contains('\n') && (lines[i].len() == 0
            || lines[i].last() != '\r')
}

/// Lines that are joined are the lines of the text.
proof fn lemma_joined_lines(lines: Seq<Seq<char>>)
    requires
        lines.len() > 0,
        are_lines(lines),
    ensures
        text::lines(text::join(lines, seq!['\n']) + seq!['\n']) == lines,
        lines.last().len() > 0 ==> text::lines(text::join(lines, seq!['\n'])) == lines,
    decreases lines.len(),
{
    let sep = seq!['\n'];
    let a = lines[0];
    let none = Seq::<char>::empty();
    text_laws::law_lines(a, none);
    if lines.len() == 1 {
        assert(a + sep + none =~= a + sep);
        assert(text::join(lines, sep) == a);
        assert(seq![a] + text::lines(none) =~= lines);
        assert(seq![a] =~= lines);
    } else {
        let rest = lines.skip(1);
        assert forall|i: int| 0 <= i < rest.len() implies !(#[trigger] rest[i]).contains('\n') && (
        rest[i].len() == 0 || rest[i].last() != '\r') by {
            assert(rest[i] == lines[i + 1]);
        }
        lemma_joined_lines(rest);
        text::lemma_join_front(a, rest, sep);
        assert(seq![a] + rest =~= lines);
        let tail = text::join(rest, sep);
        text_laws::law_lines(a, tail + sep);
        text_laws::law_lines(a, tail);
        assert(text::join(lines, sep) + sep =~= a + sep + (tail + sep));
        assert(rest.last() == lines.last());
    }
}

/// The text of an updated file has exactly the lines that its hunks leave, and ends with a line feed
/// where the text before did.
pub proof fn law_updated_text(before: Seq<char>, lines: Seq<Seq<char>>)
    requires
        lines.len() > 0,
        are_lines(lines),
        lines.last().len() > 0,
    ensures
        ({
            let after = hunks::text_of_lines(before, lines);
            &&& text::lines(after) == lines
            &&& after.len() > 0
            &&& after.last() == '\n' <==> before.len() > 0 && before.last() == '\n'
        }),
{
    reveal_strlit("\n");
    assert("\n"@ =~= seq!['\n']);
    lemma_joined_lines(lines);
    hunks::law_last_line_end_stays(before, lines);
    let after = hunks::text_of_lines(before, lines);
    if after.len() == 0 {
        assert(text::lines(after).len() == 0);
    }
}

/// Split at its line feeds, the text of an updated file gives the lines back that its hunks leave,
/// with an empty piece behind them where the text before ended with a line feed. A file without lines
/// is empty, or a line feed alone.
pub proof fn law_pieces_of_updated_text(before: Seq<char>, lines: Seq<Seq<char>>)
    requires
        forall|i: int| 0 <= i < lines.len() ==> !(#[trigger] lines[i]).contains('\n'),
    ensures
        ({
            let ended = before.len() > 0 && before.last() == '\n';
            let after = hunks::text_of_lines(before, lines);
            &&& lines.len() > 0 ==> text::split(after, '\n') == (if ended {
                lines.push(Seq::empty())
            } else {
                lines
            })
            &&& lines.len() == 0 ==> after == (if ended {
                seq!['\n']
            } else {
                Seq::empty()
            })
        }),
{
    reveal_strlit("\n");
    assert("\n"@ =~= seq!['\n']);
    if lines.len() > 0 {
        text::law_split_of_join(lines, '\n');
        let all = lines.push(Seq::empty());
        assert forall|i: int| 0 <= i < all.len() implies !(#[trigger] all[i]).contains('\n') by {
            if i < lines.len() {
                assert(all[i] == lines[i]);
            }
        }
        text::law_split_of_join(all, '\n');
        assert(all.drop_last() =~= lines);
        assert(text::join(all, seq!['\n']) =~= text::join(lines, "\n"@) + "\n"@);
    } else {
        assert(text::join(lines, "\n"@) + "\n"@ =~= seq!['\n']);
    }
}

/// How many lines hunks add.
pub open spec fn added(list: Seq<patch::HunkView>, k: int) -> int
    decreases k,
{
    if k <= 0 {
        0
    } else {
        added(list, k - 1) + sign_count(list[k - 1].lines, true, list[k - 1].lines.len() as int)
    }
}

/// How many lines hunks remove.
pub open spec fn removed(list: Seq<patch::HunkView>, k: int) -> int
    decreases k,
{
    if k <= 0 {
        0
    } else {
        removed(list, k - 1) + sign_count(list[k - 1].lines, false, list[k - 1].lines.len() as int)
    }
}

/// How many of the first `k` lines of a hunk come in, or go.
pub open spec fn sign_count(lines: Seq<patch::DiffLineView>, plus: bool, k: int) -> int
    decreases k,
{
    if k <= 0 {
        0
    } else {
        sign_count(lines, plus, k - 1) + (if (plus && lines[k - 1] is Add) || (!plus && lines[k
            - 1] is Remove) {
            1int
        } else {
            0
        })
    }
}

/// The lines of a hunk, counted.
proof fn lemma_signs(lines: Seq<patch::DiffLineView>, k: int)
    requires
        0 <= k,
    ensures
        hunk_laws::new_count(lines, k) - hunk_laws::old_count(lines, k) == sign_count(
            lines,
            true,
            k,
        ) - sign_count(lines, false, k),
        hunk_laws::old_count(lines, k) + sign_count(lines, true, k) == k,
        sign_count(lines, true, k) >= 0,
        0 <= sign_count(lines, false, k) <= hunk_laws::old_count(lines, k),
    decreases k,
{
    if k > 0 {
        lemma_signs(lines, k - 1);
    }
}

/// A file grows by the lines that its hunks add and shrinks by those that they remove.
pub proof fn law_update_length(
    file: Seq<Seq<char>>,
    list: Seq<patch::HunkView>,
    path: Seq<char>,
    t: Threshold,
    k: int,
)
    requires
        0 <= k <= list.len(),
        file.len() + added(list, k) <= usize::MAX,
    ensures
        hunks::hunks_outcome(file, list, path, t, k) matches Ok((new, _)) ==> new.len()
            == file.len() + added(list, k) - removed(list, k),
        added(list, k) >= 0,
        removed(list, k) >= 0,
    decreases k,
{
    if k > 0 {
        let h = list[k - 1];
        let n = h.lines.len() as int;
        lemma_signs(h.lines, n);
        lemma_added_grows(list, k - 1);
        law_update_length(file, list, path, t, k - 1);
        if let Ok((middle, _)) = hunks::hunks_outcome(file, list, path, t, k - 1) {
            if let Ok((new, _)) = hunks::hunk_outcome(middle, h, path, t) {
                if hunk_laws::old_count(h.lines, n) > 0 {
                    hunk_laws::law_hunk_changes_its_lines_alone(middle, h, path, t);
                } else {
                    assert forall|j: int| 0 <= j < n implies #[trigger] h.lines[j] is Add by {
                        lemma_all_in(h.lines, n, j);
                    }
                    hunk_laws::law_additions_go_to_the_end(middle, h, path, t);
                }
            }
        }
    }
}

/// What is added is no less than nothing.
proof fn lemma_added_grows(list: Seq<patch::HunkView>, k: int)
    ensures
        added(list, k) >= 0,
        removed(list, k) >= 0,
    decreases k,
{
    if k > 0 {
        lemma_added_grows(list, k - 1);
        lemma_signs(list[k - 1].lines, list[k - 1].lines.len() as int);
    }
}

/// Where no line of a hunk is in the file, each comes in.
proof fn lemma_all_in(lines: Seq<patch::DiffLineView>, k: int, j: int)
    requires
        0 <= j < k,
        hunk_laws::old_count(lines, k) == 0,
    ensures
        lines[j] is Add,
    decreases k,
{
    lemma_signs(lines, k - 1);
    if j < k - 1 {
        lemma_all_in(lines, k - 1, j);
    }
}

/// How the place of a hunk was found, and at which line, is said of each hunk.
pub proof fn law_match_info(results: Seq<hunks::HunkResultView>, i: int)
    requires
        0 <= i < results.len(),
    ensures
        results.len() == 1 ==> hunks::match_info(results) == Some(
            results[0].match_type + " match at line "@ + numbers::decimal(
                results[0].matched_at as nat,
            ),
        ),
        results.len() > 1 ==> (hunks::match_info(results) matches Some(info) && text::contains(
            info,
            "Hunk "@ + numbers::decimal((i + 1) as nat) + ": "@ + results[i].match_type
                + " at line "@ + numbers::decimal(results[i].matched_at as nat),
        )),
        hunks::match_info(Seq::empty()) is None,
{
    if results.len() > 1 {
        let info = hunks::match_info(results)->0;
        let notes = hunks::hunk_notes(results);
        text_laws::law_joined_parts(notes, "; "@, i);
        let k = choose|k: int|
            #![trigger info.subrange(k, k + notes[i].len())]
            0 <= k && k + notes[i].len() <= info.len() && info.subrange(k, k + notes[i].len())
                == notes[i];
        text::lemma_contains(info, notes[i], k);
    }
}

// ---------------------------------------------------------------------------
// Line ends
// ---------------------------------------------------------------------------

/// Line ends of any kind become line feeds, and nothing else changes: a carriage return and a line
/// feed become one line feed, and so does a carriage return alone.
pub proof fn law_line_ends(a: Seq<char>, b: Seq<char>)
    requires
        !a.contains('\r'),
    ensures
        newlines::unix(a) == a,
        newlines::unix(a + seq!['\r', '\n'] + b) == a + seq!['\n'] + newlines::unix(b),
        b.len() == 0 || b[0] != '\n' ==> newlines::unix(a + seq!['\r'] + b) == a + seq!['\n']
            + newlines::unix(b),
        newlines::unix(a + b) == a + newlines::unix(b),
    decreases a.len(),
{
    if a.len() > 0 {
        let rest = a.skip(1);
        assert(a[0] != '\r') by {
            assert(a.contains(a[0]));
        }
        assert(!rest.contains('\r')) by {
            if rest.contains('\r') {
                let j = choose|j: int| 0 <= j < rest.len() && rest[j] == '\r';
                assert(a[j + 1] == '\r');
            }
        }
        law_line_ends(rest, b);
        assert(a =~= seq![a[0]] + rest);
        let x = a + seq!['\r', '\n'] + b;
        assert(x.skip(1) =~= rest + seq!['\r', '\n'] + b);
        let y = a + seq!['\r'] + b;
        assert(y.skip(1) =~= rest + seq!['\r'] + b);
        let z = a + b;
        assert(z.skip(1) =~= rest + b);
        assert(newlines::unix(x) =~= a + seq!['\n'] + newlines::unix(b));
        if b.len() == 0 || b[0] != '\n' {
            assert(newlines::unix(y) =~= a + seq!['\n'] + newlines::unix(b));
        }
        assert(newlines::unix(z) =~= a + newlines::unix(b));
    } else {
        let x = a + seq!['\r', '\n'] + b;
        assert(x.skip(2) =~= b);
        assert(x[0] == '\r' && x[1] == '\n');
        assert(newlines::unix(x) =~= a + seq!['\n'] + newlines::unix(b));
        let y = a + seq!['\r'] + b;
        assert(y.skip(1) =~= b);
        assert(y[0] == '\r');
        if b.len() > 0 {
            assert(y[1] == b[0]);
        }
        if b.len() == 0 || b[0] != '\n' {
            assert(newlines::unix(y) =~= a + seq!['\n'] + newlines::unix(b));
        }
        assert(a + b =~= b);
        assert(a + newlines::unix(b) =~= newlines::unix(b));
    }
}

// ---------------------------------------------------------------------------
// Batches
// ---------------------------------------------------------------------------

/// What an operation shows is shown whole where it has no more than half a mebibyte, and with what
/// was shown before no more than two. It is cut to half a mebibyte, with a note, where it has more;
/// where the whole would be too much, that alone is said, and nothing more is shown.
pub proof fn law_output_is_kept(o: Seq<char>, b: batch::OutputBudget)
    requires
        b.used <= 2_097_152,
    ensures
        ({
            let (shown, left) = batch::budgeted(Some(o), b);
            let n = sizes::byte_len(o);
            &&& b.spent ==> shown is None
            &&& !b.spent && n <= 524_288 && b.used + n <= 2_097_152 ==> shown == Some(o)
                && left.used == b.used + n && !left.spent
            &&& !b.spent && n <= 524_288 && b.used + n > 2_097_152 ==> shown == Some(
                "... [truncated: total output exceeds 2MB limit]"@,
            ) && left.spent
            &&& !b.spent && n > 524_288 && shown is Some && !left.spent ==> exists|k: int|
                0 <= k < o.len() && sizes::byte_len(#[trigger] o.take(k)) <= 524_288
                    && sizes::byte_len(o.take(k + 1)) > 524_288 && shown->0 == o.take(k)
                    + "\n... [truncated: file exceeds 512KB limit]"@
        }),
        batch::budgeted(None, b) == (None::<Seq<char>>, b),
{
    let n = sizes::byte_len(o);
    sizes::lemma_byte_len_add(o, Seq::empty());
    let note = "\n... [truncated: file exceeds 512KB limit]"@;
    if n > 524_288 {
        sizes::lemma_clip(o, 524_288);
        let k = sizes::fitting(o, 524_288);
        if k < o.len() {
            assert(o.take(k + 1) =~= o.take(k) + seq![o[k]]);
            sizes::lemma_byte_len_add(o.take(k), seq![o[k]]);
            assert(seq![o[k]].skip(1) =~= Seq::<char>::empty());
            reveal_with_fuel(sizes::byte_len, 2);
        } else {
            assert(o.take(k) =~= o);
        }
        assert(batch::cut_output(o) == o.take(k) + note);
        sizes::lemma_byte_len_add(o.take(k), note);
    }
}

/// A batch that is given up says at which operation, of how many, it failed and why; the operations
/// behind it say that they were skipped, and that reason.
pub proof fn law_failure_is_told(
    b: batch::BatchView,
    op: patch::FileOpView,
    next: patch::FileOpView,
    k: int,
    total: int,
)
    requires
        b.rollback is None,
        0 <= k < total <= usize::MAX,
    ensures
        ({
            let after = batch::batch_step(b, op, k, total);
            let r = after.results.last();
            let then = batch::batch_step(after, next, k + 1, total);
            let skipped = then.results.last();
            &&& r.batch_index == Some(k as usize) && r.batch_total == Some(total as usize)
            &&& outcome::failed(r.status) ==> after.rollback == Some(
                "Batch rolled back due to failure at op "@ + numbers::decimal(k as nat) + "/"@
                    + numbers::decimal(total as nat) + ": "@ + r.message,
            )
            &&& !outcome::failed(r.status) ==> after.rollback is None
            &&& outcome::failed(r.status) ==> skipped.status is Skipped && skipped.message
                == "Skipped due to earlier batch failure"@ && skipped.rollback_reason
                == after.rollback && skipped.batch_index == Some((k + 1) as usize)
                && then.session == after.session && skipped.op_type == applier::op_name(next).0
                && skipped.path == applier::op_name(next).1 && then.rollback == after.rollback
        }),
{
}

/// What the end of a batch does to a result: one that changed files counts as skipped where the
/// batch is given up, and as failed where its files could not be written. Any other stays.
pub proof fn law_end_of_batch(r: outcome::OpResultView, m: Seq<char>)
    ensures
        ({
            let changes = r.op_type == "add"@ || r.op_type == "write"@ || r.op_type == "update"@
                || r.op_type == "delete"@ || r.op_type == "move"@;
            let done = r.status is Success || r.status is ValidationWarning;
            &&& !(changes && done) ==> batch::settled(r, batch::EffectView::RolledBack(m)) == r
                && batch::settled(r, batch::EffectView::CommitFailed(m)) == r && batch::settled(
                r,
                batch::EffectView::DryRun,
            ) == r
            &&& changes && done ==> batch::settled(r, batch::EffectView::RolledBack(m)) == (
            outcome::OpResultView {
                status: OpStatus::Skipped,
                rollback_reason: Some(m),
                ..r
            })
            &&& changes && done ==> batch::settled(r, batch::EffectView::CommitFailed(m)) == (
            outcome::OpResultView {
                status: OpStatus::FatalError,
                message: m,
                rollback_reason: Some(m),
                ..r
            })
        }),
        batch::effect_of(Some(m), true, None) == batch::EffectView::RolledBack(m),
        batch::effect_of(Some(m), false, None) == batch::EffectView::RolledBack(m),
        batch::effect_of(None, true, Some(m)) is DryRun,
        batch::effect_of(None, false, None) is Committed,
        batch::effect_of(None, false, Some(m)) == batch::EffectView::CommitFailed(
            "Commit failed: "@ + m,
        ),
{
}

/// Which errors can be mended: those of lines that are not found, or found more than once.
pub proof fn law_error_status(e: error::PatchErrorView)
    ensures
        outcome::failed(outcome::error_status(e)),
        outcome::error_status(e) is RecoverableError <==> e is ContextNotFound || e
            is AmbiguousContext,
{
}

/// A result more is counted once, as it ended and by its type.
pub proof fn law_summary_counts(
    results: Seq<outcome::OpResultView>,
    r: outcome::OpResultView,
)
    requires
        results.len() < usize::MAX,
    ensures
        ({
            let (a, b) = (batch::summary_of(results), batch::summary_of(results.push(r)));
            &&& b.total_operations == a.total_operations + 1
            &&& b.ok_operations - a.ok_operations == one_if(r.status is Success)
            &&& b.skipped_operations - a.skipped_operations == one_if(r.status is Skipped)
            &&& b.error_operations - a.error_operations == one_if(
                r.status is FatalError || r.status is RecoverableError,
            )
            &&& b.add_operations - a.add_operations == one_if(r.op_type == "add"@)
            &&& b.write_operations - a.write_operations == one_if(r.op_type == "write"@)
            &&& b.update_operations - a.update_operations == one_if(r.op_type == "update"@)
            &&& b.delete_operations - a.delete_operations == one_if(r.op_type == "delete"@)
            &&& b.move_operations - a.move_operations == one_if(r.op_type == "move"@)
            &&& b.read_operations - a.read_operations == one_if(r.op_type == "read"@)
            &&& b.map_operations - a.map_operations == one_if(r.op_type == "map"@)
        }),
        batch::summary_of(Seq::empty()).total_operations == 0,
        batch::summary_of(Seq::empty()).ok_operations == 0,
{
    let ok = |r: outcome::OpResultView| r.status is Success;
    let skipped = |r: outcome::OpResultView| r.status is Skipped;
    let wrong = |r: outcome::OpResultView| outcome::failed(r.status);
    lemma_count_more(results, r, ok);
    lemma_count_more(results, r, skipped);
    lemma_count_more(results, r, wrong);
    lemma_type_more(results, r, "add"@);
    lemma_type_more(results, r, "write"@);
    lemma_type_more(results, r, "update"@);
    lemma_type_more(results, r, "delete"@);
    lemma_type_more(results, r, "move"@);
    lemma_type_more(results, r, "read"@);
    lemma_type_more(results, r, "map"@);
}

/// One where something holds.
pub open spec fn one_if(b: bool) -> int {
    if b {
        1
    } else {
        0
    }
}

/// A type, counted with a result more.
proof fn lemma_type_more(
    results: Seq<outcome::OpResultView>,
    r: outcome::OpResultView,
    op_type: Seq<char>,
)
    requires
        results.len() < usize::MAX,
    ensures
        batch::of_type(results.push(r), op_type, results.len() as int + 1) == batch::of_type(
            results,
            op_type,
            results.len() as int,
        ) + one_if(r.op_type == op_type),
{
    lemma_count_more(results, r, |x: outcome::OpResultView| x.op_type == op_type);
}

/// Something, counted with a result more.
proof fn lemma_count_more(
    results: Seq<outcome::OpResultView>,
    r: outcome::OpResultView,
    holds: spec_fn(outcome::OpResultView) -> bool,
)
    ensures
        batch::count(results.push(r), holds, results.len() as int + 1) == batch::count(
            results,
            holds,
            results.len() as int,
        ) + one_if(holds(r)),
        0 <= batch::count(results, holds, results.len() as int) <= results.len(),
{
    lemma_count_first(results, r, holds, results.len() as int);
    batch::lemma_count(results, holds, results.len() as int);
    assert(results.push(r)[results.len() as int] == r);
}

/// The first results are counted as before.
proof fn lemma_count_first(
    results: Seq<outcome::OpResultView>,
    r: outcome::OpResultView,
    holds: spec_fn(outcome::OpResultView) -> bool,
    k: int,
)
    requires
        0 <= k <= results.len(),
    ensures
        batch::count(results.push(r), holds, k) == batch::count(results, holds, k),
    decreases k,
{
    if k > 0 {
        lemma_count_first(results, r, holds, k - 1);
        assert(results.push(r)[k - 1] == results[k - 1]);
    }
}

/// An operation of a batch that is not given up is carried out on what is staged, and its result is
/// told, but for what may no longer be shown.
pub proof fn law_result_of_operation(
    b: batch::BatchView,
    op: patch::FileOpView,
    k: int,
    total: int,
)
    requires
        b.rollback is None,
    ensures
        ({
            let after = batch::batch_step(b, op, k, total);
            let whole = batch::op_result(b.session, op, Some((k as usize, total as usize)));
            &&& after.results.len() == b.results.len() + 1
            &&& forall|i: int|
                0 <= i < b.results.len() ==> #[trigger] after.results[i] == b.results[i]
            &&& after.results.last() == (outcome::OpResultView {
                output: batch::budgeted(whole.output, b.budget).0,
                ..whole
            })
            &&& after.budget == batch::budgeted(whole.output, b.budget).1
            &&& after.session == applier::after_change(b.session, op)
        }),
        batch::batch_upto(b.session, Seq::empty(), 0).session == b.session,
        batch::batch_upto(b.session, Seq::empty(), 0).results.len() == 0,
        batch::batch_upto(b.session, Seq::empty(), 0).budget.used == 0,
        !batch::batch_upto(b.session, Seq::empty(), 0).budget.spent,
{
}

/// Reading and mapping are carried out as such, with what is asked for, and every other operation as
/// a change.
pub proof fn law_operations_are_carried_out(
    s: workspace::SessionView,
    op: patch::FileOpView,
    place: Option<(usize, usize)>,
)
    ensures
        match op {
            patch::FileOpView::Read { path, symbols, language, offset, limit } => batch::op_result(
                s,
                op,
                place,
            ) == crate::reading::read_result(
                s,
                crate::parser::ReadView { path, symbols, language, offset, limit },
                place,
            ),
            patch::FileOpView::MapDir { path, depth, output_limit } => batch::op_result(
                s,
                op,
                place,
            ) == crate::reading::map_result(s, path, depth, output_limit, place),
            _ => batch::op_result(s, op, place) == applier::change_result(s, op, place),
        },
{
}

/// What is staged of a path takes the place of what was staged of it before, and of a path of which
/// nothing was staged it comes last. All other files stay as they are, in their order.
pub proof fn law_staged_in_place(
    staged: Seq<workspace::StagedView>,
    path: Seq<char>,
    content: Option<Seq<u8>>,
    i: int,
)
    requires
        0 <= i <= staged.len(),
        i < staged.len() ==> staged[i].path == path,
        forall|j: int| 0 <= j < i ==> (#[trigger] staged[j]).path != path,
    ensures
        ({
            let after = workspace::put(staged, path, content);
            &&& after.len() == (if i < staged.len() {
                staged.len() as int
            } else {
                staged.len() as int + 1
            })
            &&& after[i] == workspace::StagedView { path, content }
            &&& forall|j: int| 0 <= j < staged.len() && j != i ==> #[trigger] after[j] == staged[j]
        }),
{
    workspace::lemma_staged_index(staged, path, 0);
    let k = workspace::staged_index(staged, path, 0);
    if k < i {
        assert(staged[k].path == path);
    }
    if i < k {
        assert(staged[i].path != path);
    }
}

} // verus!
