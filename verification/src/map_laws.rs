//! What holds of maps, said of the files and directories alone.

use vstd::prelude::*;

use crate::bytes;
use crate::functions;
use crate::numbers;
use crate::text;
use crate::text_laws;
use crate::tree;
use crate::workspace;

verus! {

// ---------------------------------------------------------------------------
// Which functions are listed
// ---------------------------------------------------------------------------

/// Whether a name was found in a line, from one, that is no word of the language.
pub open spec fn found_in(
    hits: Seq<Seq<Option<Seq<char>>>>,
    row: int,
    line: int,
    name: Seq<char>,
) -> bool {
    &&& 0 <= row < hits.len()
    &&& 1 <= line <= hits[row].len()
    &&& hits[row][line - 1] == Some(name)
    &&& name != "if"@ && name != "while"@ && name != "for"@ && name != "match"@
}

/// Whether a list holds what was found, and nothing else or twice.
spec fn sound(
    list: Seq<functions::RangeView>,
    lines: Seq<Seq<char>>,
    hits: Seq<Seq<Option<Seq<char>>>>,
) -> bool {
    &&& forall|i: int|
        0 <= i < list.len() ==> (exists|row: int|
            #[trigger] found_in(hits, row, list[i].start as int, list[i].name)) && (
        #[trigger] list[i]).end == functions::function_end(lines, list[i].start - 1) as usize
    &&& forall|i: int, j: int|
        0 <= i < j < list.len() ==> !(#[trigger] list[i].name == #[trigger] list[j].name
            && list[i].start == list[j].start)
}

/// Whether a list holds what was found in the first `k` lines of a row.
spec fn covers(
    list: Seq<functions::RangeView>,
    hits: Seq<Seq<Option<Seq<char>>>>,
    row: int,
    k: int,
) -> bool {
    forall|line: int, name: Seq<char>|
        line <= k && #[trigger] found_in(hits, row, line, name) ==> functions::listed(
            list,
            name,
            line,
        )
}

/// A longer list holds what a shorter one does.
proof fn lemma_covers_more(
    a: Seq<functions::RangeView>,
    b: Seq<functions::RangeView>,
    hits: Seq<Seq<Option<Seq<char>>>>,
    row: int,
    k: int,
)
    requires
        covers(a, hits, row, k),
        forall|i: int| 0 <= i < a.len() ==> b.contains(#[trigger] a[i]),
    ensures
        covers(b, hits, row, k),
{
    assert forall|line: int, name: Seq<char>|
        line <= k && #[trigger] found_in(hits, row, line, name) implies functions::listed(
        b,
        name,
        line,
    ) by {
        assert(functions::listed(a, name, line));
        let i = choose|i: int|
            0 <= i < a.len() && (#[trigger] a[i]).name == name && a[i].start == line;
        assert(b.contains(a[i]));
        let j = choose|j: int| 0 <= j < b.len() && b[j] == a[i];
        assert(b[j].name == name && b[j].start == line);
    }
}

/// The names of a row, line by line.
proof fn lemma_with_names(
    lines: Seq<Seq<char>>,
    hits: Seq<Seq<Option<Seq<char>>>>,
    row: int,
    list: Seq<functions::RangeView>,
    k: int,
)
    requires
        0 <= row < hits.len(),
        hits[row].len() == lines.len(),
        lines.len() < usize::MAX,
        0 <= k <= lines.len(),
        sound(list, lines, hits),
    ensures
        sound(functions::with_names(lines, hits[row], list, k), lines, hits),
        covers(functions::with_names(lines, hits[row], list, k), hits, row, k),
        list.len() <= functions::with_names(lines, hits[row], list, k).len(),
        forall|i: int|
            0 <= i < list.len() ==> functions::with_names(lines, hits[row], list, k)[i]
                == #[trigger] list[i],
    decreases k,
{
    if k > 0 {
        lemma_with_names(lines, hits, row, list, k - 1);
        let before = functions::with_names(lines, hits[row], list, k - 1);
        let after = functions::with_names(lines, hits[row], list, k);
        if let Some(name) = hits[row][k - 1] {
            if !functions::is_keyword(name) {
                assert(found_in(hits, row, k, name));
                if !functions::listed(before, name, k) {
                    assert(after == before.push(after.last()));
                    assert forall|i: int| 0 <= i < after.len() implies (exists|r: int|
                        #[trigger] found_in(hits, r, after[i].start as int, after[i].name)) && (
                    #[trigger] after[i]).end == functions::function_end(
                        lines,
                        after[i].start - 1,
                    ) as usize by {
                        if i < before.len() {
                            assert(after[i] == before[i]);
                        } else {
                            assert(found_in(hits, row, after[i].start as int, after[i].name));
                        }
                    }
                    assert forall|i: int, j: int| 0 <= i < j < after.len() implies !(
                    #[trigger] after[i].name == #[trigger] after[j].name && after[i].start
                        == after[j].start) by {
                        assert(after[i] == before[i]);
                        if j < before.len() {
                            assert(after[j] == before[j]);
                        }
                    }
                    assert(after[before.len() as int].name == name);
                    assert(functions::listed(after, name, k));
                }
            }
        }
        assert forall|line: int, name: Seq<char>|
            line <= k && #[trigger] found_in(hits, row, line, name) implies functions::listed(
            after,
            name,
            line,
        ) by {
            if line < k {
                assert(functions::listed(before, name, line));
                let i = choose|i: int|
                    0 <= i < before.len() && (#[trigger] before[i]).name == name
                        && before[i].start == line;
                assert(after[i] == before[i]);
            }
        }
    }
}

/// The names of all rows.
proof fn lemma_all_names(lines: Seq<Seq<char>>, hits: Seq<Seq<Option<Seq<char>>>>, k: int)
    requires
        forall|r: int| 0 <= r < hits.len() ==> (#[trigger] hits[r]).len() == lines.len(),
        lines.len() < usize::MAX,
        0 <= k <= hits.len(),
    ensures
        sound(functions::all_names(lines, hits, k), lines, hits),
        forall|r: int|
            0 <= r < k ==> #[trigger] covers(
                functions::all_names(lines, hits, k),
                hits,
                r,
                lines.len() as int,
            ),
    decreases k,
{
    if k > 0 {
        lemma_all_names(lines, hits, k - 1);
        let before = functions::all_names(lines, hits, k - 1);
        let after = functions::all_names(lines, hits, k);
        lemma_with_names(lines, hits, k - 1, before, lines.len() as int);
        assert forall|r: int| 0 <= r < k implies #[trigger] covers(
            after,
            hits,
            r,
            lines.len() as int,
        ) by {
            if r < k - 1 {
                assert(covers(before, hits, r, lines.len() as int));
                assert forall|i: int| 0 <= i < before.len() implies after.contains(
                    #[trigger] before[i],
                ) by {
                    assert(after[i] == before[i]);
                }
                lemma_covers_more(before, after, hits, r, lines.len() as int);
            }
        }
    }
}

/// Where a function is put in the order.
proof fn lemma_place_by_start(list: Seq<functions::RangeView>, start: usize, from: int)
    requires
        0 <= from <= list.len(),
    ensures
        from <= functions::place_by_start(list, start, from) <= list.len(),
        forall|i: int|
            from <= i < functions::place_by_start(list, start, from) ==> (#[trigger] list[i]).start
                <= start,
        functions::place_by_start(list, start, from) < list.len() ==> list[functions::place_by_start(
            list,
            start,
            from,
        )].start > start,
    decreases list.len() - from,
{
    if from < list.len() && list[from].start <= start {
        lemma_place_by_start(list, start, from + 1);
    }
}

/// The order of a list.
proof fn lemma_by_start(list: Seq<functions::RangeView>, k: int)
    requires
        0 <= k <= list.len(),
    ensures
        functions::by_start(list, k).len() == k,
        forall|i: int, j: int|
            0 <= i < j < k ==> functions::by_start(list, k)[i].start <= functions::by_start(
                list,
                k,
            )[j].start,
        functions::by_start(list, k).to_multiset() == list.take(k).to_multiset(),
    decreases k,
{
    broadcast use vstd::seq_lib::group_to_multiset_ensures;

    if k > 0 {
        lemma_by_start(list, k - 1);
        let before = functions::by_start(list, k - 1);
        let x = list[k - 1];
        lemma_place_by_start(before, x.start, 0);
        let p = functions::place_by_start(before, x.start, 0);
        let after = before.insert(p, x);
        assert forall|i: int, j: int| 0 <= i < j < k implies after[i].start <= after[j].start by {
            let (a, b) = (
                if i < p {
                    i
                } else {
                    i - 1
                },
                if j < p {
                    j
                } else {
                    j - 1
                },
            );
            if i != p {
                assert(after[i] == before[a]);
            }
            if j != p {
                assert(after[j] == before[b]);
            }
            if i == p {
                assert(before[p].start > x.start);
                if b > p {
                    assert(before[p].start <= before[b].start);
                }
            } else if j != p {
                assert(before[a].start <= before[b].start);
            }
        }
        assert(list.take(k) =~= list.take(k - 1).push(x));
        assert(after.to_multiset() =~= before.to_multiset().insert(x));
    } else {
        assert(list.take(0) =~= Seq::<functions::RangeView>::empty());
    }
}

/// Lists with the same items, each as often, hold the same.
proof fn lemma_same_items(
    a: Seq<functions::RangeView>,
    b: Seq<functions::RangeView>,
    x: functions::RangeView,
)
    requires
        a.to_multiset() == b.to_multiset(),
    ensures
        a.contains(x) == b.contains(x),
{
    broadcast use vstd::seq_lib::group_to_multiset_ensures;

    assert(a.contains(x) == (a.to_multiset().count(x) > 0));
    assert(b.contains(x) == (b.to_multiset().count(x) > 0));
}

/// All functions that were found, in order.
spec fn sorted_names(
    lines: Seq<Seq<char>>,
    hits: Seq<Seq<Option<Seq<char>>>>,
) -> Seq<functions::RangeView> {
    let all = functions::all_names(lines, hits, hits.len() as int);
    functions::by_start(all, all.len() as int)
}

/// Whether a function was found.
spec fn came_from(
    f: functions::RangeView,
    lines: Seq<Seq<char>>,
    hits: Seq<Seq<Option<Seq<char>>>>,
) -> bool {
    &&& exists|r: int| #[trigger] found_in(hits, r, f.start as int, f.name)
    &&& f.end == functions::function_end(lines, f.start - 1) as usize
}

/// What holds of all functions that were found.
proof fn lemma_sorted_names(
    lines: Seq<Seq<char>>,
    hits: Seq<Seq<Option<Seq<char>>>>,
    row: int,
    line: int,
    name: Seq<char>,
)
    requires
        forall|r: int| 0 <= r < hits.len() ==> (#[trigger] hits[r]).len() == lines.len(),
        lines.len() < usize::MAX,
    ensures
        ({
            let sorted = sorted_names(lines, hits);
            &&& forall|i: int, j: int|
                0 <= i < j < sorted.len() ==> sorted[i].start <= sorted[j].start
            &&& forall|i: int|
                0 <= i < sorted.len() ==> came_from(#[trigger] sorted[i], lines, hits)
            &&& found_in(hits, row, line, name) ==> functions::listed(sorted, name, line)
            &&& forall|i: int, j: int| 0 <= i < j < sorted.len() ==> sorted[i] != sorted[j]
        }),
{
    let all = functions::all_names(lines, hits, hits.len() as int);
    lemma_all_names(lines, hits, hits.len() as int);
    lemma_by_start(all, all.len() as int);
    let sorted = sorted_names(lines, hits);
    assert(all.take(all.len() as int) =~= all);
    assert forall|i: int| 0 <= i < sorted.len() implies came_from(
        #[trigger] sorted[i],
        lines,
        hits,
    ) by {
        lemma_same_items(sorted, all, sorted[i]);
        assert(sorted.contains(sorted[i]));
        let j = choose|j: int| 0 <= j < all.len() && all[j] == sorted[i];
        assert(all[j].end == functions::function_end(lines, all[j].start - 1) as usize);
    }
    if found_in(hits, row, line, name) {
        assert(covers(all, hits, row, lines.len() as int));
        assert(functions::listed(all, name, line));
        let i = choose|i: int|
            0 <= i < all.len() && (#[trigger] all[i]).name == name && all[i].start == line;
        assert(all.contains(all[i]));
        lemma_same_items(sorted, all, all[i]);
        let j = choose|j: int| 0 <= j < sorted.len() && sorted[j] == all[i];
        assert(sorted[j].name == name && sorted[j].start == line);
    }
    assert forall|i: int, j: int| 0 <= i < j < sorted.len() implies sorted[i] != sorted[j] by {
        if sorted[i] == sorted[j] {
            lemma_twice(sorted, i, j);
            lemma_count_distinct(all, sorted[i]);
        }
    }
}

/// The functions that are listed of a source text are the first five of those that were found, in
/// the order of the lines that they start in: each was found in the line that it starts in and ends
/// where a function that starts there does, none is listed twice, and one that is not listed starts
/// no sooner than any of five that are.
pub proof fn law_first_functions(
    lines: Seq<Seq<char>>,
    hits: Seq<Seq<Option<Seq<char>>>>,
    row: int,
    line: int,
    name: Seq<char>,
)
    requires
        forall|r: int| 0 <= r < hits.len() ==> (#[trigger] hits[r]).len() == lines.len(),
        lines.len() < usize::MAX,
    ensures
        ({
            let list = functions::first_functions(lines, hits);
            &&& list.len() <= 5
            &&& forall|i: int, j: int| 0 <= i < j < list.len() ==> list[i].start <= list[j].start
            &&& forall|i: int|
                0 <= i < list.len() ==> (exists|r: int|
                    #[trigger] found_in(hits, r, list[i].start as int, list[i].name)) && (
                #[trigger] list[i]).end == functions::function_end(
                    lines,
                    list[i].start - 1,
                ) as usize
            &&& found_in(hits, row, line, name) ==> functions::listed(list, name, line) || (
            list.len() == 5 && list[4].start <= line)
            &&& forall|i: int, j: int| 0 <= i < j < list.len() ==> list[i] != list[j]
        }),
{
    lemma_sorted_names(lines, hits, row, line, name);
    let sorted = sorted_names(lines, hits);
    let list = functions::first_functions(lines, hits);
    assert(list.len() <= sorted.len());
    assert forall|i: int| 0 <= i < list.len() implies #[trigger] list[i] == sorted[i] by {}
    assert forall|i: int| 0 <= i < list.len() implies came_from(
        #[trigger] list[i],
        lines,
        hits,
    ) by {
        assert(came_from(sorted[i], lines, hits));
    }
    if found_in(hits, row, line, name) {
        let j = choose|j: int|
            0 <= j < sorted.len() && (#[trigger] sorted[j]).name == name && sorted[j].start == line;
        if j < list.len() {
            assert(list[j].name == name && list[j].start == line);
        } else {
            assert(sorted[4].start <= sorted[j].start);
        }
    }
}

/// What is at two places of a list is in it twice.
proof fn lemma_twice(list: Seq<functions::RangeView>, i: int, j: int)
    requires
        0 <= i < j < list.len(),
        list[i] == list[j],
    ensures
        list.to_multiset().count(list[i]) >= 2,
{
    broadcast use vstd::seq_lib::group_to_multiset_ensures;

    let rest = list.remove(j);
    assert(rest[i] == list[i]);
    assert(rest.contains(list[i]));
    assert(rest.to_multiset().count(list[i]) > 0);
    assert(rest.to_multiset() =~= list.to_multiset().remove(list[j]));
}

/// What is at one place of a list is in it once.
proof fn lemma_count_distinct(list: Seq<functions::RangeView>, x: functions::RangeView)
    requires
        forall|i: int, j: int|
            0 <= i < j < list.len() ==> !(#[trigger] list[i].name == #[trigger] list[j].name
                && list[i].start == list[j].start),
    ensures
        list.to_multiset().count(x) <= 1,
    decreases list.len(),
{
    broadcast use vstd::seq_lib::group_to_multiset_ensures;

    if list.len() > 0 {
        let less = list.drop_last();
        assert forall|i: int, j: int| 0 <= i < j < less.len() implies !(#[trigger] less[i].name
            == #[trigger] less[j].name && less[i].start == less[j].start) by {
            assert(less[i] == list[i] && less[j] == list[j]);
        }
        lemma_count_distinct(less, x);
        assert(list =~= less.push(list.last()));
        assert(list.to_multiset() =~= less.to_multiset().insert(list.last()));
        if list.last() == x && less.to_multiset().count(x) > 0 {
            assert(less.contains(x));
            let i = choose|i: int| 0 <= i < less.len() && less[i] == x;
            assert(list[i].name == list[list.len() - 1].name);
        }
    }
}

// ---------------------------------------------------------------------------
// The lines of files
// ---------------------------------------------------------------------------

/// Spaces alone, two for each level.
proof fn lemma_levels(depth: int)
    requires
        0 <= depth,
    ensures
        tree::levels(depth).len() == 2 * depth,
        forall|i: int| 0 <= i < 2 * depth ==> #[trigger] tree::levels(depth)[i] == ' ',
    decreases depth,
{
    if depth > 0 {
        lemma_levels(depth - 1);
        reveal_strlit("  ");
    }
}

/// So many spaces.
pub open spec fn spaces(n: int) -> Seq<char> {
    Seq::new(n as nat, |i: int| ' ')
}

/// The line of a text file at the first or the second level names each of its first functions, with
/// the lines that it starts and ends with.
pub proof fn law_map_names_the_functions(
    name: Seq<char>,
    b: Seq<u8>,
    content: Seq<char>,
    depth: int,
    i: int,
)
    requires
        depth == 1 || depth == 2,
        !bytes::binary(b),
        bytes::decoded(b) == Some(content),
        0 <= i < functions::first_functions(
            text::lines(content),
            functions::names_found(text::lines(content)),
        ).len(),
    ensures
        ({
            let f = functions::first_functions(
                text::lines(content),
                functions::names_found(text::lines(content)),
            )[i];
            text::contains(
                tree::file_line(name, Some(workspace::NodeView::File(b)), depth).0,
                f.name + "["@ + numbers::decimal(f.start as nat) + ":"@ + numbers::decimal(
                    f.end as nat,
                ) + "]"@,
            )
        }),
{
    let list = functions::first_functions(
        text::lines(content),
        functions::names_found(text::lines(content)),
    );
    let f = list[i];
    let shown = f.name + "["@ + numbers::decimal(f.start as nat) + ":"@ + numbers::decimal(
        f.end as nat,
    ) + "]"@;
    let parts = list.map_values(|f: functions::RangeView| tree::function_text(f));
    let line = tree::file_line(name, Some(workspace::NodeView::File(b)), depth).0;
    assert(parts[i] == shown);
    text_laws::law_joined_parts(parts, ", "@, i);
    let all = text::join(parts, ", "@);
    let k = choose|k: int|
        #![trigger all.subrange(k, k + parts[i].len())]
        0 <= k && k + parts[i].len() <= all.len() && all.subrange(k, k + parts[i].len())
            == parts[i];
    let head = tree::levels(depth + 1) + name + "  "@ + numbers::decimal(
        text::lines(content).len() as nat,
    ) + " LOC [text]"@ + "  ["@;
    assert(line =~= head + all + "]"@);
    let at = head.len() + k;
    assert(line.subrange(at, at + shown.len()) =~= all.subrange(k, k + parts[i].len()));
    text::lemma_contains(line, shown, at);
}

/// The line of a text file says its name, two levels in for each level and one more, and how many
/// lines it has. Its functions follow at the first two levels, joined by commas, and nowhere else.
pub proof fn law_map_line_of_text(
    name: Seq<char>,
    b: Seq<u8>,
    content: Seq<char>,
    depth: int,
)
    requires
        0 <= depth,
        !bytes::binary(b),
        bytes::decoded(b) == Some(content),
    ensures
        ({
            let (line, n) = tree::file_line(name, Some(workspace::NodeView::File(b)), depth);
            let list = functions::first_functions(
                text::lines(content),
                functions::names_found(text::lines(content)),
            );
            let plain = spaces(2 * (depth + 1)) + name + "  "@ + numbers::decimal(
                text::lines(content).len(),
            ) + " LOC [text]"@;
            &&& n == text::lines(content).len()
            &&& text::starts_with(line, plain)
            &&& line.len() > plain.len() <==> (depth == 1 || depth == 2) && list.len() > 0
            &&& line.len() > plain.len() ==> line == plain + ("  ["@ + text::join(
                Seq::new(
                    list.len(),
                    |i: int|
                        list[i].name + "["@ + numbers::decimal(list[i].start as nat) + ":"@
                            + numbers::decimal(list[i].end as nat) + "]"@,
                ),
                ", "@,
            ) + "]"@)
        }),
{
    lemma_levels(depth + 1);
    assert(tree::levels(depth + 1) =~= spaces(2 * (depth + 1)));
    let (line, n) = tree::file_line(name, Some(workspace::NodeView::File(b)), depth);
    let plain = spaces(2 * (depth + 1)) + name + "  "@ + numbers::decimal(
        text::lines(content).len(),
    ) + " LOC [text]"@;
    reveal_strlit("]");
    reveal_strlit("  [");
    let list = functions::first_functions(
        text::lines(content),
        functions::names_found(text::lines(content)),
    );
    if (depth == 1 || depth == 2) && list.len() > 0 {
        let all = text::join(
            list.map_values(|f: functions::RangeView| tree::function_text(f)),
            ", "@,
        );
        assert(list.map_values(|f: functions::RangeView| tree::function_text(f)) =~= Seq::new(
            list.len(),
            |i: int|
                list[i].name + "["@ + numbers::decimal(list[i].start as nat) + ":"@
                    + numbers::decimal(list[i].end as nat) + "]"@,
        ));
        assert(line =~= plain + ("  ["@ + all + "]"@));
        text_laws::law_ends(plain, "  ["@ + all + "]"@);
    } else {
        assert(line =~= plain + Seq::<char>::empty());
        text_laws::law_ends(plain, Seq::empty());
    }
}

/// The line of a binary file says its size: in bytes below a kibibyte, else in whole kibibytes. A
/// file whose text cannot be read, and one that cannot be read at all, is said to be so.
pub proof fn law_map_line_of_others(
    name: Seq<char>,
    b: Seq<u8>,
    depth: int,
    node: Option<workspace::NodeView>,
)
    requires
        0 <= depth,
    ensures
        ({
            let (line, n) = tree::file_line(name, Some(workspace::NodeView::File(b)), depth);
            let head = spaces(2 * (depth + 1)) + name;
            &&& bytes::binary(b) && b.len() < 1024 ==> line == head + "  "@ + numbers::decimal(
                b.len(),
            ) + " B"@ + " [binary]"@ && n == 0
            &&& bytes::binary(b) && b.len() >= 1024 ==> line == head + "  "@ + numbers::decimal(
                (b.len() / 1024) as nat,
            ) + " KB"@ + " [binary]"@ && n == 0
            &&& !bytes::binary(b) && bytes::decoded(b) is None ==> line == head
                + "  [decode error]"@ && n == 0
            &&& node is None || !(node->0 is File) ==> tree::file_line(name, node, depth) == (
                head + "  [unreadable]"@,
                0int,
            )
        }),
{
    lemma_levels(depth + 1);
    assert(tree::levels(depth + 1) =~= spaces(2 * (depth + 1)));
    let head = spaces(2 * (depth + 1)) + name;
    let n = b.len() as int;
    if n < 1024 {
        assert(n / 1024 == 0);
    } else {
        assert(n / 1024 > 0);
    }
    let (line, _) = tree::file_line(name, Some(workspace::NodeView::File(b)), depth);
    if bytes::binary(b) {
        if n < 1024 {
            assert(line =~= head + "  "@ + numbers::decimal(b.len()) + " B"@ + " [binary]"@);
        } else {
            assert(line =~= head + "  "@ + numbers::decimal((b.len() / 1024) as nat) + " KB"@
                + " [binary]"@);
        }
    }
}

/// A file looks binary exactly where one of its first bytes is zero.
pub proof fn law_binary(b: Seq<u8>, i: int)
    ensures
        0 <= i < b.len() && i < 8192 && b[i] == 0 ==> bytes::binary(b),
        (forall|j: int| 0 <= j < b.len() && j < 8192 ==> b[j] != 0) ==> !bytes::binary(b),
{
}

// ---------------------------------------------------------------------------
// What is listed
// ---------------------------------------------------------------------------

/// Which names no map shows, whatever they are of.
pub proof fn law_skipped_names(name: Seq<char>)
    ensures
        tree::is_skipped_name(name) <==> (name == "node_modules"@ || name == ".git"@ || name
            == "__pycache__"@ || name == ".next"@ || name == "dist"@ || name == "build"@ || name
            == "target"@ || name == ".venv"@),
{
}

/// Which files no map shows: those whose names end like pictures, fonts, sounds, films, archives,
/// locks and other things that hold no source text.
pub proof fn law_skipped_files(base: Seq<char>)
    ensures
        tree::is_skipped_file(base + ".png"@),
        tree::is_skipped_file(base + ".jpg"@),
        tree::is_skipped_file(base + ".jpeg"@),
        tree::is_skipped_file(base + ".gif"@),
        tree::is_skipped_file(base + ".ico"@),
        tree::is_skipped_file(base + ".woff"@),
        tree::is_skipped_file(base + ".woff2"@),
        tree::is_skipped_file(base + ".ttf"@),
        tree::is_skipped_file(base + ".bin"@),
        tree::is_skipped_file(base + ".lock"@),
        tree::is_skipped_file(base + ".pdf"@),
        tree::is_skipped_file(base + ".zip"@),
        tree::is_skipped_file(base + ".tar"@),
        tree::is_skipped_file(base + ".gz"@),
        tree::is_skipped_file(base + ".svg"@),
        tree::is_skipped_file(base + ".mp4"@),
        tree::is_skipped_file(base + ".mp3"@),
        tree::is_skipped_file(base + ".wav"@),
        tree::is_skipped_file(base + ".webm"@),
{
    text_laws::law_ends(base, ".png"@);
    text_laws::law_ends(base, ".jpg"@);
    text_laws::law_ends(base, ".jpeg"@);
    text_laws::law_ends(base, ".gif"@);
    text_laws::law_ends(base, ".ico"@);
    text_laws::law_ends(base, ".woff"@);
    text_laws::law_ends(base, ".woff2"@);
    text_laws::law_ends(base, ".ttf"@);
    text_laws::law_ends(base, ".bin"@);
    text_laws::law_ends(base, ".lock"@);
    text_laws::law_ends(base, ".pdf"@);
    text_laws::law_ends(base, ".zip"@);
    text_laws::law_ends(base, ".tar"@);
    text_laws::law_ends(base, ".gz"@);
    text_laws::law_ends(base, ".svg"@);
    text_laws::law_ends(base, ".mp4"@);
    text_laws::law_ends(base, ".mp3"@);
    text_laws::law_ends(base, ".wav"@);
    text_laws::law_ends(base, ".webm"@);
}

/// A name without a point is not that of such a file.
pub proof fn law_plain_files_are_shown(name: Seq<char>)
    requires
        !name.contains('.'),
    ensures
        !tree::is_skipped_file(name),
{
    reveal_strlit(".png");
    reveal_strlit(".jpg");
    reveal_strlit(".jpeg");
    reveal_strlit(".gif");
    reveal_strlit(".ico");
    reveal_strlit(".woff");
    reveal_strlit(".woff2");
    reveal_strlit(".ttf");
    reveal_strlit(".bin");
    reveal_strlit(".lock");
    reveal_strlit(".pdf");
    reveal_strlit(".zip");
    reveal_strlit(".tar");
    reveal_strlit(".gz");
    reveal_strlit(".svg");
    reveal_strlit(".mp4");
    reveal_strlit(".mp3");
    reveal_strlit(".wav");
    reveal_strlit(".webm");
    lemma_no_point(name, ".png"@);
    lemma_no_point(name, ".jpg"@);
    lemma_no_point(name, ".jpeg"@);
    lemma_no_point(name, ".gif"@);
    lemma_no_point(name, ".ico"@);
    lemma_no_point(name, ".woff"@);
    lemma_no_point(name, ".woff2"@);
    lemma_no_point(name, ".ttf"@);
    lemma_no_point(name, ".bin"@);
    lemma_no_point(name, ".lock"@);
    lemma_no_point(name, ".pdf"@);
    lemma_no_point(name, ".zip"@);
    lemma_no_point(name, ".tar"@);
    lemma_no_point(name, ".gz"@);
    lemma_no_point(name, ".svg"@);
    lemma_no_point(name, ".mp4"@);
    lemma_no_point(name, ".mp3"@);
    lemma_no_point(name, ".wav"@);
    lemma_no_point(name, ".webm"@);
}

/// A text without a point does not end with one and more.
proof fn lemma_no_point(name: Seq<char>, suffix: Seq<char>)
    requires
        !name.contains('.'),
        suffix.len() > 0,
        suffix[0] == '.',
    ensures
        !text::ends_with(name, suffix),
{
    if text::ends_with(name, suffix) {
        let k = name.len() - suffix.len();
        assert(name.skip(k)[0] == name[k]);
    }
}

/// Texts come before one another in one order.
pub proof fn law_order_is_transitive(a: Seq<char>, b: Seq<char>, c: Seq<char>, k: int)
    requires
        0 <= k,
        text::text_before(a, b, k),
        text::text_before(b, c, k),
    ensures
        text::text_before(a, c, k),
    decreases a.len() - k,
{
    if k < a.len() && k < b.len() && k < c.len() && a[k] == b[k] && b[k] == c[k] {
        law_order_is_transitive(a, b, c, k + 1);
    }
}

/// Whether an item is not to come before another that stands before it.
pub open spec fn in_order(a: workspace::ItemView, b: workspace::ItemView) -> bool {
    if a.is_dir == b.is_dir {
        !text::text_before(b.name, a.name, 0)
    } else {
        a.is_dir
    }
}

/// Where an item is put in the order.
proof fn lemma_item_place(
    list: Seq<workspace::ItemView>,
    item: workspace::ItemView,
    from: int,
)
    requires
        0 <= from <= list.len(),
    ensures
        from <= tree::item_place(list, item, from) <= list.len(),
        forall|i: int|
            from <= i < tree::item_place(list, item, from) ==> !tree::item_before(
                item,
                #[trigger] list[i],
            ),
        tree::item_place(list, item, from) < list.len() ==> tree::item_before(
            item,
            list[tree::item_place(list, item, from)],
        ),
    decreases list.len() - from,
{
    if from < list.len() && !tree::item_before(item, list[from]) {
        lemma_item_place(list, item, from + 1);
    }
}

/// An item that comes before one that another is not before, is in order with that other.
proof fn lemma_in_order(
    x: workspace::ItemView,
    y: workspace::ItemView,
    z: workspace::ItemView,
)
    requires
        tree::item_before(x, y),
        y == z || in_order(y, z),
    ensures
        in_order(x, z),
{
    text::law_text_order(x.name, y.name, 0);
    if x.is_dir == z.is_dir && text::text_before(z.name, x.name, 0) {
        if x.is_dir == y.is_dir {
            law_order_is_transitive(z.name, x.name, y.name, 0);
        }
    }
}

/// The items that are shown of a directory are those that no rule leaves out, each once for each
/// time that it is listed: directories before files, and either by their names.
pub proof fn law_shown_items(items: Seq<workspace::ItemView>, k: int)
    requires
        0 <= k <= items.len(),
    ensures
        ({
            let shown = tree::shown_items(items, k);
            &&& forall|i: int, j: int|
                0 <= i < j < shown.len() ==> in_order(#[trigger] shown[i], #[trigger] shown[j])
            &&& shown.to_multiset() == items.take(k).filter(
                |x: workspace::ItemView|
                    !tree::is_skipped_name(x.name) && (x.is_dir || !tree::is_skipped_file(x.name)),
            ).to_multiset()
        }),
    decreases k,
{
    broadcast use vstd::seq_lib::group_to_multiset_ensures;

    let keep = |x: workspace::ItemView|
        !tree::is_skipped_name(x.name) && (x.is_dir || !tree::is_skipped_file(x.name));
    reveal(Seq::filter);
    if k > 0 {
        law_shown_items(items, k - 1);
        let before = tree::shown_items(items, k - 1);
        let x = items[k - 1];
        assert(items.take(k).drop_last() =~= items.take(k - 1));
        assert(items.take(k).last() == x);
        assert(items.take(k).filter(keep) == (if keep(x) {
            items.take(k - 1).filter(keep).push(x)
        } else {
            items.take(k - 1).filter(keep)
        }));
        if tree::is_shown(x) {
            lemma_item_place(before, x, 0);
            let p = tree::item_place(before, x, 0);
            let after = before.insert(p, x);
            assert(after.to_multiset() =~= before.to_multiset().insert(x));
            assert forall|i: int, j: int| 0 <= i < j < after.len() implies in_order(
                #[trigger] after[i],
                #[trigger] after[j],
            ) by {
                let a = if i < p {
                    i
                } else {
                    i - 1
                };
                let b = if j < p {
                    j
                } else {
                    j - 1
                };
                if i != p {
                    assert(after[i] == before[a]);
                }
                if j != p {
                    assert(after[j] == before[b]);
                }
                if j == p {
                    assert(!tree::item_before(x, before[i]));
                } else if i == p {
                    if b > p {
                        assert(in_order(before[p], before[b]));
                    }
                    lemma_in_order(x, before[p], before[b]);
                } else {
                    assert(in_order(before[a], before[b]));
                }
            }
        }
    } else {
        assert(items.take(0).filter(keep) =~= Seq::<workspace::ItemView>::empty());
    }
}

// ---------------------------------------------------------------------------
// Directories
// ---------------------------------------------------------------------------

/// How many of the first `k` items are not directories.
pub open spec fn files_among(items: Seq<workspace::ItemView>, k: int) -> int
    decreases k,
{
    if k <= 0 {
        0
    } else if items[k - 1].is_dir {
        files_among(items, k - 1)
    } else {
        files_among(items, k - 1) + 1
    }
}

/// Files, counted.
proof fn lemma_files_among(items: Seq<workspace::ItemView>, k: int)
    ensures
        tree::file_items(items, k) == files_among(items, k),
    decreases k,
{
    if k > 0 {
        lemma_files_among(items, k - 1);
    }
}

/// The line of a directory: its name and a slash at the first two levels, with how many files it
/// shows at the third, two spaces in for each level. The directory that is mapped has none.
pub proof fn law_line_of_directory(
    dir: Seq<char>,
    shown: Seq<workspace::ItemView>,
    depth: int,
)
    requires
        0 <= depth,
    ensures
        ({
            let name = match crate::paths::file_name(dir) {
                Some(n) => n,
                None => "."@,
            };
            let lines = tree::dir_lines(dir, shown, depth);
            &&& depth == 0 || depth > 3 ==> lines.len() == 0
            &&& depth == 1 || depth == 2 ==> lines == seq![spaces(2 * depth) + name + "/"@]
            &&& depth == 3 ==> lines == seq![
                spaces(6) + name + "/  ("@ + numbers::decimal(
                    files_among(shown, shown.len() as int) as nat,
                ) + " files)"@,
            ]
        }),
{
    lemma_levels(depth);
    assert(tree::levels(depth) =~= spaces(2 * depth));
    lemma_files_among(shown, shown.len() as int);
}

/// The map of a directory is its own line, and then what is said of each item that it shows, in
/// their order; what stops one stops all. Files and lines are added up, and the greatest depth is
/// kept.
pub proof fn law_map_in_order(
    s: workspace::SessionView,
    dir: Seq<char>,
    shown: Seq<workspace::ItemView>,
    max_depth: int,
    depth: int,
    k: int,
)
    requires
        0 <= k < shown.len(),
        0 <= depth <= max_depth <= usize::MAX,
    ensures
        ({
            let before = tree::map_items(s, dir, shown, max_depth, depth, k);
            let item = tree::map_item(s, dir, shown[k], max_depth, depth);
            let after = tree::map_items(s, dir, shown, max_depth, depth, k + 1);
            match before {
                Err(m) => after == Err::<(Seq<Seq<char>>, tree::MapMetrics), Seq<char>>(m),
                Ok((lines, seen)) => match item {
                    Err(m) => after == Err::<(Seq<Seq<char>>, tree::MapMetrics), Seq<char>>(m),
                    Ok((more, found)) => after matches Ok((all, total)) && all == lines + more && (
                    seen.file_count + found.file_count <= usize::MAX ==> total.file_count
                        == seen.file_count + found.file_count) && (seen.total_lines
                        + found.total_lines <= usize::MAX ==> total.total_lines == seen.total_lines
                        + found.total_lines) && total.max_depth >= seen.max_depth
                        && total.max_depth >= found.max_depth && (total.max_depth == seen.max_depth
                        || total.max_depth == found.max_depth),
                },
            }
        }),
        tree::map_items(s, dir, shown, max_depth, depth, 0) matches Ok((lines, seen)) && lines
            == tree::dir_lines(dir, shown, depth) && seen.file_count == 0 && seen.total_lines == 0
            && seen.max_depth == depth,
{
}

/// What is said of an item of a directory: a file has its line and is counted with its lines; a
/// directory is mapped one level further in, as long as that is no further than it may be.
pub proof fn law_map_of_item(
    s: workspace::SessionView,
    dir: Seq<char>,
    item: workspace::ItemView,
    max_depth: int,
    depth: int,
)
    requires
        dir.len() > 0,
        dir != seq!['/'],
        0 <= depth <= max_depth <= usize::MAX,
    ensures
        ({
            let path = dir + seq!['/'] + item.name;
            let said = tree::map_item(s, dir, item, max_depth, depth);
            &&& !item.is_dir ==> {
                let (line, n) = tree::file_line(item.name, workspace::virtual_node(s, path), depth);
                said == Ok::<(Seq<Seq<char>>, tree::MapMetrics), Seq<char>>(
                    (
                        seq![line],
                        tree::MapMetrics { file_count: 1, total_lines: n as usize, max_depth: 0 },
                    ),
                )
            }
            &&& item.is_dir && depth < max_depth ==> said == tree::map_dir(
                s,
                path,
                max_depth,
                depth + 1,
            )
            &&& item.is_dir && depth == max_depth ==> (said matches Ok((lines, found))
                && lines.len() == 0 && found.file_count == 0)
        }),
{
    reveal_strlit("/");
    assert("/"@ =~= seq!['/']);
}

/// What is said of a directory with files alone: a line for each of them, in their order.
pub proof fn law_map_of_files(
    s: workspace::SessionView,
    dir: Seq<char>,
    shown: Seq<workspace::ItemView>,
    max_depth: int,
    depth: int,
    k: int,
)
    requires
        0 <= k <= shown.len() <= usize::MAX,
        0 <= depth <= max_depth <= usize::MAX,
        forall|i: int| 0 <= i < shown.len() ==> !(#[trigger] shown[i]).is_dir,
    ensures
        tree::map_items(s, dir, shown, max_depth, depth, k) matches Ok((lines, seen)) && {
            let heads = tree::dir_lines(dir, shown, depth);
            &&& lines.len() == heads.len() + k
            &&& seen.file_count == k
            &&& forall|i: int|
                0 <= i < k ==> lines[heads.len() + i] == tree::file_line(
                    (#[trigger] shown[i]).name,
                    workspace::virtual_node(s, crate::paths::inside(dir) + shown[i].name),
                    depth,
                ).0
        },
    decreases k,
{
    if k > 0 {
        law_map_of_files(s, dir, shown, max_depth, depth, k - 1);
        assert(!shown[k - 1].is_dir);
        law_map_in_order(s, dir, shown, max_depth, depth, k - 1);
        let (line, n) = tree::file_line(
            shown[k - 1].name,
            workspace::virtual_node(s, crate::paths::inside(dir) + shown[k - 1].name),
            depth,
        );
        assert(tree::map_item(s, dir, shown[k - 1], max_depth, depth) == Ok::<
            (Seq<Seq<char>>, tree::MapMetrics),
            Seq<char>,
        >(
            (
                seq![line],
                tree::MapMetrics { file_count: 1, total_lines: n as usize, max_depth: 0 },
            ),
        ));
        let (lines, seen) = tree::map_items(s, dir, shown, max_depth, depth, k)->Ok_0;
        let (before, _) = tree::map_items(s, dir, shown, max_depth, depth, k - 1)->Ok_0;
        let heads = tree::dir_lines(dir, shown, depth);
        assert forall|i: int| 0 <= i < k implies lines[heads.len() + i] == tree::file_line(
            (#[trigger] shown[i]).name,
            workspace::virtual_node(s, crate::paths::inside(dir) + shown[i].name),
            depth,
        ).0 by {
            if i < k - 1 {
                assert(lines[heads.len() + i] == before[heads.len() + i]);
            }
        }
    }
}

/// A map that is too long is cut off behind as many characters as it may have, with a note; another
/// is shown whole. Its first line says the path, and how many files and lines it has come across.
pub proof fn law_map_text(
    path: Seq<char>,
    source: crate::paths::PathSource,
    lines: Seq<Seq<char>>,
    metrics: tree::MapMetrics,
    limit: usize,
)
    ensures
        ({
            let whole = text::join(
                seq![
                    "map: "@ + path + " ["@ + crate::paths::source_text(source) + "] ("@
                        + numbers::decimal(metrics.file_count as nat) + " files, "@
                        + numbers::decimal(metrics.total_lines as nat) + " lines total, depth="@
                        + numbers::decimal(metrics.max_depth as nat) + ")"@,
                ] + lines,
                "\n"@,
            );
            let shown = crate::reading::map_text(path, source, lines, metrics, limit);
            &&& whole.len() <= limit ==> shown == whole
            &&& whole.len() > limit ==> shown == whole.take(limit as int) + "\n... [truncated]"@
        }),
{
}

/// A directory is mapped as far as its depth allows: what it lists and what is not left out, in
/// order. One that may not be looked into stops the map.
pub proof fn law_map_of_directory(
    s: workspace::SessionView,
    dir: Seq<char>,
    max_depth: int,
    depth: int,
)
    ensures
        depth > max_depth ==> (tree::map_dir(s, dir, max_depth, depth) matches Ok((lines, _))
            && lines.len() == 0),
        depth <= max_depth ==> match workspace::virtual_node(s, dir) {
            Some(workspace::NodeView::ClosedDirectory(m)) => tree::map_dir(s, dir, max_depth, depth)
                == Err::<(Seq<Seq<char>>, tree::MapMetrics), Seq<char>>(m),
            _ => {
                let items = workspace::listing(s, dir);
                let shown = tree::shown_items(items, items.len() as int);
                tree::map_dir(s, dir, max_depth, depth) == tree::map_items(
                    s,
                    dir,
                    shown,
                    max_depth,
                    depth,
                    shown.len() as int,
                )
            },
        },
{
}

} // verus!
