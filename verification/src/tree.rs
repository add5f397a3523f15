//! Maps of directories.

use vstd::prelude::*;
use vstd::string::*;

use crate::bytes;
use crate::bytes::{decode, is_binary};
use crate::error;
use crate::error::{cat2, cat3};
use crate::functions;
use crate::functions::extract_function_ranges;
use crate::lists;
use crate::numbers;
use crate::numbers::decimal_of;
use crate::paths;
use crate::paths::file_name_of;
use crate::text;
use crate::text::{chars_of, comes_before, has_suffix, join_texts, lines_of, same_text};
use crate::workspace;
use crate::workspace::{DirItem, PatchSession};

verus! {

broadcast use crate::lists::group_lists;

/// What a map has come across.
#[derive(Debug, Clone, Copy, PartialEq, Eq)]
pub struct MapMetrics {
    pub file_count: usize,
    pub total_lines: usize,
    pub max_depth: usize,
}

impl Default for MapMetrics {
    fn default() -> (r: MapMetrics)
        ensures
            r == no_metrics(),
    {
        MapMetrics { file_count: 0, total_lines: 0, max_depth: 0 }
    }
}

/// What a map has come across before it starts.
pub open spec fn no_metrics() -> MapMetrics {
    MapMetrics { file_count: 0, total_lines: 0, max_depth: 0 }
}

/// The sum of two numbers, or the greatest number.
pub open spec fn sum(a: usize, b: usize) -> usize {
    if a + b <= usize::MAX {
        (a + b) as usize
    } else {
        usize::MAX
    }
}

/// The sum of two numbers, or the greatest number.
fn add_up(a: usize, b: usize) -> (r: usize)
    ensures
        r == sum(a, b),
{
    if a <= usize::MAX - b {
        a + b
    } else {
        usize::MAX
    }
}

/// What two parts of a map have come across.
pub open spec fn both(a: MapMetrics, b: MapMetrics) -> MapMetrics {
    MapMetrics {
        file_count: sum(a.file_count, b.file_count),
        total_lines: sum(a.total_lines, b.total_lines),
        max_depth: if a.max_depth < b.max_depth {
            b.max_depth
        } else {
            a.max_depth
        },
    }
}

// ---------------------------------------------------------------------------
// What is listed, and in which order
// ---------------------------------------------------------------------------

/// Whether a name is that of something that no map goes into.
pub open spec fn is_skipped_name(name: Seq<char>) -> bool {
    name == "node_modules"@ || name == ".git"@ || name == "__pycache__"@ || name == ".next"@ || name
        == "dist"@ || name == "build"@ || name == "target"@ || name == ".venv"@
}

/// Whether a name ends like that of a file that no map shows.
pub open spec fn is_skipped_file(name: Seq<char>) -> bool {
    text::ends_with(name, ".png"@) || text::ends_with(name, ".jpg"@) || text::ends_with(
        name,
        ".jpeg"@,
    ) || text::ends_with(name, ".gif"@) || text::ends_with(name, ".ico"@) || text::ends_with(
        name,
        ".woff"@,
    ) || text::ends_with(name, ".woff2"@) || text::ends_with(name, ".ttf"@) || text::ends_with(
        name,
        ".bin"@,
    ) || text::ends_with(name, ".lock"@) || text::ends_with(name, ".pdf"@) || text::ends_with(
        name,
        ".zip"@,
    ) || text::ends_with(name, ".tar"@) || text::ends_with(name, ".gz"@) || text::ends_with(
        name,
        ".svg"@,
    ) || text::ends_with(name, ".mp4"@) || text::ends_with(name, ".mp3"@) || text::ends_with(
        name,
        ".wav"@,
    ) || text::ends_with(name, ".webm"@)
}

/// Whether a map shows an item.
pub open spec fn is_shown(item: workspace::ItemView) -> bool {
    !is_skipped_name(item.name) && (item.is_dir || !is_skipped_file(item.name))
}

/// Whether a name is that of something that no map goes into.
pub fn skips_name(name: &str) -> (r: bool)
    ensures
        r == is_skipped_name(name@),
{
    same_text(name, "node_modules") || same_text(name, ".git") || same_text(name, "__pycache__")
        || same_text(name, ".next") || same_text(name, "dist") || same_text(name, "build")
        || same_text(name, "target") || same_text(name, ".venv")
}

/// Whether a name ends like that of a file that no map shows.
pub fn skips_file(name: &str) -> (r: bool)
    ensures
        r == is_skipped_file(name@),
{
    let v = chars_of(name);
    has_suffix(&v, ".png") || has_suffix(&v, ".jpg") || has_suffix(&v, ".jpeg") || has_suffix(
        &v,
        ".gif",
    ) || has_suffix(&v, ".ico") || has_suffix(&v, ".woff") || has_suffix(&v, ".woff2")
        || has_suffix(&v, ".ttf") || has_suffix(&v, ".bin") || has_suffix(&v, ".lock")
        || has_suffix(&v, ".pdf") || has_suffix(&v, ".zip") || has_suffix(&v, ".tar")
        || has_suffix(&v, ".gz") || has_suffix(&v, ".svg") || has_suffix(&v, ".mp4") || has_suffix(
        &v,
        ".mp3",
    ) || has_suffix(&v, ".wav") || has_suffix(&v, ".webm")
}

/// Whether an item comes before another: directories before files, and by their names.
pub open spec fn item_before(a: workspace::ItemView, b: workspace::ItemView) -> bool {
    if a.is_dir == b.is_dir {
        text::text_before(a.name, b.name, 0)
    } else {
        a.is_dir
    }
}

/// The first place in a list from `from` on that an item comes before, or its end.
pub open spec fn item_place(
    list: Seq<workspace::ItemView>,
    item: workspace::ItemView,
    from: int,
) -> int
    decreases list.len() - from,
{
    if from >= list.len() || item_before(item, list[from]) {
        from
    } else {
        item_place(list, item, from + 1)
    }
}

/// Those of the first `k` items that a map shows, in their order.
pub open spec fn shown_items(items: Seq<workspace::ItemView>, k: int) -> Seq<workspace::ItemView>
    decreases k,
{
    if k <= 0 {
        Seq::empty()
    } else {
        let before = shown_items(items, k - 1);
        if is_shown(items[k - 1]) {
            before.insert(item_place(before, items[k - 1], 0), items[k - 1])
        } else {
            before
        }
    }
}

/// How many of the first `k` items are files.
pub open spec fn file_items(items: Seq<workspace::ItemView>, k: int) -> int
    decreases k,
{
    if k <= 0 {
        0
    } else {
        file_items(items, k - 1) + (if items[k - 1].is_dir {
            0int
        } else {
            1
        })
    }
}

/// Whether an item comes before another.
fn sorts_before(a: &DirItem, b: &DirItem) -> (r: bool)
    ensures
        r == item_before(a@, b@),
{
    if a.is_dir == b.is_dir {
        comes_before(a.name.as_str(), b.name.as_str())
    } else {
        a.is_dir
    }
}

/// The items that a map shows, in their order.
fn sort_items(items: &Vec<DirItem>) -> (r: Vec<DirItem>)
    ensures
        workspace::item_views(r@) == shown_items(
            workspace::item_views(items@),
            items@.len() as int,
        ),
{
    let ghost views = workspace::item_views(items@);
    let mut out: Vec<DirItem> = Vec::new();
    let mut k: usize = 0;
    assert(workspace::item_views(out@) =~= shown_items(views, 0));
    while k < items.len()
        invariant
            0 <= k <= items@.len(),
            views == workspace::item_views(items@),
            workspace::item_views(out@) == shown_items(views, k as int),
        decreases items@.len() - k,
    {
        let item = &items[k];
        assert(views[k as int] == item@);
        if !skips_name(item.name.as_str()) && (item.is_dir || !skips_file(item.name.as_str())) {
            let ghost before = workspace::item_views(out@);
            let mut p: usize = 0;
            while p < out.len() && !sorts_before(item, &out[p])
                invariant
                    0 <= p <= out@.len(),
                    before == workspace::item_views(out@),
                    item_place(before, item@, 0) == item_place(before, item@, p as int),
                decreases out@.len() - p,
            {
                assert(before[p as int] == out@[p as int]@);
                p += 1;
            }
            proof {
                if p < out@.len() {
                    assert(before[p as int] == out@[p as int]@);
                }
            }
            let copy = DirItem { name: item.name.clone(), is_dir: item.is_dir };
            out.insert(p, copy);
            assert(workspace::item_views(out@) =~= before.insert(p as int, item@));
        }
        k += 1;
    }
    out
}

// ---------------------------------------------------------------------------
// Files
// ---------------------------------------------------------------------------

/// Two spaces for each level.
pub open spec fn levels(depth: int) -> Seq<char>
    decreases depth,
{
    if depth <= 0 {
        Seq::empty()
    } else {
        levels(depth - 1) + "  "@
    }
}

/// A size as it is shown.
pub open spec fn size_text(size: int) -> Seq<char> {
    if size / 1024 > 0 {
        numbers::decimal((size / 1024) as nat) + " KB"@
    } else {
        numbers::decimal(size as nat) + " B"@
    }
}

/// A function as it is shown.
pub open spec fn function_text(f: functions::RangeView) -> Seq<char> {
    f.name + "["@ + numbers::decimal(f.start as nat) + ":"@ + numbers::decimal(f.end as nat) + "]"@
}

/// A text file as it is shown, with its functions where there are any to show.
pub open spec fn source_line(
    head: Seq<char>,
    line_count: int,
    list: Seq<functions::RangeView>,
) -> Seq<char> {
    let plain = head + "  "@ + numbers::decimal(line_count as nat) + " LOC [text]"@;
    if list.len() == 0 {
        plain
    } else {
        plain + "  ["@ + text::join(
            list.map_values(|f: functions::RangeView| function_text(f)),
            ", "@,
        ) + "]"@
    }
}

/// The functions that are shown of a file: those of the files in the first two levels.
pub open spec fn shown_functions(content: Seq<char>, depth: int) -> Seq<functions::RangeView> {
    if 1 <= depth <= 2 {
        functions::first_functions(
            text::lines(content),
            functions::names_found(text::lines(content)),
        )
    } else {
        Seq::empty()
    }
}

/// A file as it is shown, and how many lines it has.
pub open spec fn file_line(
    name: Seq<char>,
    node: Option<workspace::NodeView>,
    depth: int,
) -> (Seq<char>, int) {
    let head = levels(depth + 1) + name;
    match node {
        Some(workspace::NodeView::File(b)) => if bytes::binary(b) {
            (head + "  "@ + size_text(b.len() as int) + " [binary]"@, 0)
        } else {
            match bytes::decoded(b) {
                None => (head + "  [decode error]"@, 0),
                Some(content) => {
                    let n = text::lines(content).len() as int;
                    (source_line(head, n, shown_functions(content, depth)), n)
                },
            }
        },
        _ => (head + "  [unreadable]"@, 0),
    }
}

/// Two spaces for each level.
fn level_text(depth: usize) -> (r: String)
    ensures
        r@ == levels(depth as int),
{
    let mut out = String::new();
    let mut i: usize = 0;
    assert(out@ =~= levels(0));
    while i < depth
        invariant
            0 <= i <= depth,
            out@ == levels(i as int),
        decreases depth - i,
    {
        out.append("  ");
        i += 1;
    }
    out
}

/// A text file as it is shown, with its functions.
pub fn describe_source(head: &str, line_count: usize, list: &Vec<functions::FunctionRange>) -> (r:
    String)
    ensures
        r@ == source_line(head@, line_count as int, functions::range_views(list@)),
{
    let mut out = cat3(head, "  ", decimal_of(line_count).as_str());
    out.append(" LOC [text]");
    if list.len() == 0 {
        return out;
    }
    let ghost all = functions::range_views(list@).map_values(
        |f: functions::RangeView| function_text(f),
    );
    let mut parts: Vec<String> = Vec::new();
    let mut i: usize = 0;
    while i < list.len()
        invariant
            0 <= i <= list@.len(),
            all == functions::range_views(list@).map_values(
                |f: functions::RangeView| function_text(f),
            ),
            lists::texts(parts@) == all.take(i as int),
        decreases list@.len() - i,
    {
        let f = &list[i];
        let mut part = cat3(f.name.as_str(), "[", decimal_of(f.start).as_str());
        part.append(":");
        part.append(decimal_of(f.end).as_str());
        part.append("]");
        assert(part@ == function_text(f@));
        parts.push(part);
        i += 1;
        assert(lists::texts(parts@) =~= all.take(i as int));
    }
    assert(lists::texts(parts@) =~= all);
    out.append("  [");
    out.append(join_texts(&parts, ", ").as_str());
    out.append("]");
    out
}

/// A file as it is shown, and how many lines it has.
pub fn describe_file_with_lines(
    session: &PatchSession,
    path: &str,
    name: &str,
    current_depth: usize,
) -> (r: (String, usize))
    ensures
        (r.0@, r.1 as int) == file_line(
            name@,
            workspace::virtual_node(session@, path@),
            current_depth as int,
        ),
{
    let head = cat3(level_text(current_depth).as_str(), "  ", name);
    let content = match session.read_virtual_bytes_at(path) {
        None => {
            return (cat2(head.as_str(), "  [unreadable]"), 0);
        },
        Some((content, _)) => content,
    };
    if is_binary(&content) {
        let size: usize = content.len();
        let shown = if size / 1024 > 0 {
            cat2(decimal_of(size / 1024).as_str(), " KB")
        } else {
            cat2(decimal_of(size).as_str(), " B")
        };
        let mut out = cat3(head.as_str(), "  ", shown.as_str());
        out.append(" [binary]");
        return (out, 0);
    }
    match decode(content) {
        Err(_) => (cat2(head.as_str(), "  [decode error]"), 0),
        Ok(t) => {
            let n: usize = lines_of(t.as_str()).len();
            assert(n == text::lines(t@).len());
            let list = if 1 <= current_depth && current_depth <= 2 {
                extract_function_ranges(t.as_str())
            } else {
                let none: Vec<functions::FunctionRange> = Vec::new();
                assert(functions::range_views(none@) =~= Seq::empty());
                none
            };
            (describe_source(head.as_str(), n, &list), n)
        },
    }
}

// ---------------------------------------------------------------------------
// Directories
// ---------------------------------------------------------------------------

/// The lines of a map and what it has come across, or why there is none.
pub type Mapped = Result<(Seq<Seq<char>>, MapMetrics), Seq<char>>;

/// The name of a directory as it is shown.
pub open spec fn dir_name(dir: Seq<char>) -> Seq<char> {
    match paths::file_name(dir) {
        Some(name) => name,
        None => "."@,
    }
}

/// The line of a directory: its name in the first two levels, and how many files it shows in
/// the third.
pub open spec fn dir_lines(
    dir: Seq<char>,
    shown: Seq<workspace::ItemView>,
    depth: int,
) -> Seq<Seq<char>> {
    if depth == 1 || depth == 2 {
        seq![levels(depth) + dir_name(dir) + "/"@]
    } else if depth == 3 {
        seq![
            levels(depth) + dir_name(dir) + "/  ("@ + numbers::decimal(
                file_items(shown, shown.len() as int) as nat,
            ) + " files)"@,
        ]
    } else {
        Seq::empty()
    }
}

/// A map with another behind it.
pub open spec fn followed(a: Mapped, b: Mapped) -> Mapped {
    match (a, b) {
        (Err(e), _) => Err(e),
        (_, Err(e)) => Err(e),
        (Ok((lines, metrics)), Ok((more, found))) => Ok((lines + more, both(metrics, found))),
    }
}

/// The map of a directory at a depth, down to the greatest depth.
pub open spec fn map_dir(
    s: workspace::SessionView,
    dir: Seq<char>,
    max_depth: int,
    depth: int,
) -> Mapped
    decreases max_depth - depth + 1, 2int, 0int,
{
    if depth > max_depth {
        Ok((Seq::empty(), no_metrics()))
    } else {
        match workspace::dir_listing(s, dir) {
            Err(m) => Err(m),
            Ok(items) => {
                let shown = shown_items(items, items.len() as int);
                map_items(s, dir, shown, max_depth, depth, shown.len() as int)
            },
        }
    }
}

/// The map of a directory as far as its first `k` items.
pub open spec fn map_items(
    s: workspace::SessionView,
    dir: Seq<char>,
    shown: Seq<workspace::ItemView>,
    max_depth: int,
    depth: int,
    k: int,
) -> Mapped
    decreases max_depth - depth + 1, 1int, k,
{
    if k <= 0 {
        Ok(
            (
                dir_lines(dir, shown, depth),
                MapMetrics { file_count: 0, total_lines: 0, max_depth: depth as usize },
            ),
        )
    } else {
        followed(
            map_items(s, dir, shown, max_depth, depth, k - 1),
            map_item(s, dir, shown[k - 1], max_depth, depth),
        )
    }
}

/// The map of an item of a directory.
pub open spec fn map_item(
    s: workspace::SessionView,
    dir: Seq<char>,
    item: workspace::ItemView,
    max_depth: int,
    depth: int,
) -> Mapped
    decreases max_depth - depth + 1, 0int, 0int,
{
    let path = paths::inside(dir) + item.name;
    if !item.is_dir {
        let (line, n) = file_line(item.name, workspace::virtual_node(s, path), depth);
        Ok((seq![line], MapMetrics { file_count: 1, total_lines: n as usize, max_depth: 0 }))
    } else if depth < max_depth {
        map_dir(s, path, max_depth, depth + 1)
    } else {
        Ok((Seq::empty(), no_metrics()))
    }
}

/// What stops a map at an item stops it.
proof fn lemma_map_stops(
    s: workspace::SessionView,
    dir: Seq<char>,
    shown: Seq<workspace::ItemView>,
    max_depth: int,
    depth: int,
    j: int,
    k: int,
)
    requires
        0 <= j <= k,
        map_items(s, dir, shown, max_depth, depth, j) is Err,
    ensures
        map_items(s, dir, shown, max_depth, depth, k) == map_items(
            s,
            dir,
            shown,
            max_depth,
            depth,
            j,
        ),
    decreases k,
{
    if j < k {
        lemma_map_stops(s, dir, shown, max_depth, depth, j, k - 1);
    }
}

/// The line of a directory.
fn head_lines(dir: &str, shown: &Vec<DirItem>, depth: usize) -> (r: Vec<String>)
    ensures
        lists::texts(r@) == dir_lines(dir@, workspace::item_views(shown@), depth as int),
{
    let ghost views = workspace::item_views(shown@);
    let mut out: Vec<String> = Vec::new();
    assert(lists::texts(out@) =~= Seq::empty());
    if depth < 1 || depth > 3 {
        return out;
    }
    let name = match file_name_of(dir) {
        Some(name) => name,
        None => ".".to_owned(),
    };
    let mut line = cat2(level_text(depth).as_str(), name.as_str());
    if depth == 3 {
        let mut files: usize = 0;
        let mut i: usize = 0;
        while i < shown.len()
            invariant
                0 <= i <= shown@.len(),
                views == workspace::item_views(shown@),
                files == file_items(views, i as int),
                files <= i,
            decreases shown@.len() - i,
        {
            assert(views[i as int] == shown@[i as int]@);
            if !shown[i].is_dir {
                files += 1;
            }
            i += 1;
        }
        line.append("/  (");
        line.append(decimal_of(files).as_str());
        line.append(" files)");
    } else {
        line.append("/");
    }
    out.push(line);
    assert(lists::texts(out@) =~= dir_lines(dir@, views, depth as int));
    out
}

/// What two parts of a map have come across.
fn together(a: MapMetrics, b: MapMetrics) -> (r: MapMetrics)
    ensures
        r == both(a, b),
{
    MapMetrics {
        file_count: add_up(a.file_count, b.file_count),
        total_lines: add_up(a.total_lines, b.total_lines),
        max_depth: if a.max_depth < b.max_depth {
            b.max_depth
        } else {
            a.max_depth
        },
    }
}

/// Appends lines.
fn push_lines(out: &mut Vec<String>, more: &Vec<String>)
    ensures
        lists::texts(final(out)@) == lists::texts(old(out)@) + lists::texts(more@),
{
    let ghost start = lists::texts(out@);
    let ghost all = lists::texts(more@);
    let mut i: usize = 0;
    assert(start + all.take(0) =~= start);
    while i < more.len()
        invariant
            0 <= i <= more@.len(),
            all == lists::texts(more@),
            lists::texts(out@) == start + all.take(i as int),
        decreases more@.len() - i,
    {
        out.push(more[i].clone());
        i += 1;
        assert(lists::texts(out@) =~= start + all.take(i as int));
    }
    assert(all.take(i as int) =~= all);
}

/// Whether a map is the one that is owed.
spec fn is_mapped(r: Result<(Vec<String>, MapMetrics), String>, owed: Mapped) -> bool {
    match r {
        Ok(found) => owed == Ok::<(Seq<Seq<char>>, MapMetrics), Seq<char>>(
            (lists::texts(found.0@), found.1),
        ),
        Err(m) => owed == Err::<(Seq<Seq<char>>, MapMetrics), Seq<char>>(m@),
    }
}

/// The map of an item of a directory.
fn map_one(
    session: &PatchSession,
    dir: &str,
    item: &DirItem,
    max_depth: usize,
    current_depth: usize,
) -> (r: Result<(Vec<String>, MapMetrics), String>)
    requires
        current_depth <= max_depth,
    ensures
        is_mapped(r, map_item(session@, dir@, item@, max_depth as int, current_depth as int)),
    decreases max_depth + 1 - current_depth, 0int,
{
    let mut path = dir.to_owned();
    if !(same_text(dir, "/") || dir.is_empty()) {
        path.append("/");
    }
    path.append(item.name.as_str());
    assert(path@ == paths::inside(dir@) + item.name@);
    if !item.is_dir {
        let (line, count) = describe_file_with_lines(
            session,
            path.as_str(),
            item.name.as_str(),
            current_depth,
        );
        let mut lines: Vec<String> = Vec::new();
        lines.push(line);
        assert(lists::texts(lines@) =~= seq![line@]);
        Ok((lines, MapMetrics { file_count: 1, total_lines: count, max_depth: 0 }))
    } else if current_depth < max_depth {
        map_directory_with_metrics(session, path.as_str(), max_depth, current_depth + 1)
    } else {
        let none: Vec<String> = Vec::new();
        assert(lists::texts(none@) =~= Seq::empty());
        Ok((none, MapMetrics { file_count: 0, total_lines: 0, max_depth: 0 }))
    }
}

/// The map of the directory of a full path at a depth, down to the greatest depth.
pub fn map_directory_with_metrics(
    session: &PatchSession,
    dir: &str,
    max_depth: usize,
    current_depth: usize,
) -> (r: Result<(Vec<String>, MapMetrics), String>)
    ensures
        match r {
            Ok(found) => map_dir(session@, dir@, max_depth as int, current_depth as int) == Ok::<
                (Seq<Seq<char>>, MapMetrics),
                Seq<char>,
            >((lists::texts(found.0@), found.1)),
            Err(m) => map_dir(session@, dir@, max_depth as int, current_depth as int) == Err::<
                (Seq<Seq<char>>, MapMetrics),
                Seq<char>,
            >(m@),
        },
    decreases max_depth + 1 - current_depth, 1int,
{
    let ghost (s, top, deep) = (session@, max_depth as int, current_depth as int);
    if current_depth > max_depth {
        let none: Vec<String> = Vec::new();
        assert(lists::texts(none@) =~= Seq::empty());
        return Ok((none, MapMetrics { file_count: 0, total_lines: 0, max_depth: 0 }));
    }
    let shown = match session.list_virtual_dir(dir) {
        Err(m) => {
            return Err(m);
        },
        Ok(items) => sort_items(&items),
    };
    let ghost views = workspace::item_views(shown@);
    let n: usize = shown.len();
    assert(n == views.len());
    let mut lines = head_lines(dir, &shown, current_depth);
    let mut metrics = MapMetrics { file_count: 0, total_lines: 0, max_depth: current_depth };
    let mut k: usize = 0;
    while k < n
        invariant
            0 <= k <= n == shown@.len() == views.len(),
            views == workspace::item_views(shown@),
            current_depth <= max_depth,
            s == session@,
            top == max_depth,
            deep == current_depth,
            map_dir(s, dir@, top, deep) == map_items(s, dir@, views, top, deep, n as int),
            map_items(s, dir@, views, top, deep, k as int) == Ok::<
                (Seq<Seq<char>>, MapMetrics),
                Seq<char>,
            >((lists::texts(lines@), metrics)),
        decreases n - k,
    {
        assert(views[k as int] == shown@[k as int]@);
        match map_one(session, dir, &shown[k], max_depth, current_depth) {
            Ok((more, found)) => {
                push_lines(&mut lines, &more);
                metrics = together(metrics, found);
            },
            Err(m) => {
                proof {
                    lemma_map_stops(s, dir@, views, top, deep, k + 1, n as int);
                }
                return Err(m);
            },
        }
        k += 1;
    }
    Ok((lines, metrics))
}

/// No directory is mapped that lies deeper than was asked for.
pub proof fn law_map_stays_in_depth(
    s: workspace::SessionView,
    dir: Seq<char>,
    max_depth: int,
    depth: int,
)
    requires
        0 <= depth <= usize::MAX,
        0 <= max_depth <= usize::MAX,
    ensures
        map_dir(s, dir, max_depth, depth) matches Ok((_, m)) ==> m.max_depth <= max_depth,
    decreases max_depth - depth + 1, 2int, 0int,
{
    if depth <= max_depth {
        if let Ok(items) = workspace::dir_listing(s, dir) {
            let shown = shown_items(items, items.len() as int);
            lemma_items_stay_in_depth(s, dir, shown, max_depth, depth, shown.len() as int);
        }
    }
}

/// The items of a directory do not lead deeper than was asked for.
proof fn lemma_items_stay_in_depth(
    s: workspace::SessionView,
    dir: Seq<char>,
    shown: Seq<workspace::ItemView>,
    max_depth: int,
    depth: int,
    k: int,
)
    requires
        0 <= depth <= max_depth <= usize::MAX,
    ensures
        map_items(s, dir, shown, max_depth, depth, k) matches Ok((_, m)) ==> m.max_depth
            <= max_depth,
    decreases max_depth - depth + 1, 1int, k,
{
    if k > 0 {
        lemma_items_stay_in_depth(s, dir, shown, max_depth, depth, k - 1);
        lemma_item_stays_in_depth(s, dir, shown[k - 1], max_depth, depth);
    }
}

/// An item of a directory does not lead deeper than was asked for.
proof fn lemma_item_stays_in_depth(
    s: workspace::SessionView,
    dir: Seq<char>,
    item: workspace::ItemView,
    max_depth: int,
    depth: int,
)
    requires
        0 <= depth <= max_depth <= usize::MAX,
    ensures
        map_item(s, dir, item, max_depth, depth) matches Ok((_, m)) ==> m.max_depth <= max_depth,
    decreases max_depth - depth + 1, 0int, 0int,
{
    if item.is_dir && depth < max_depth {
        law_map_stays_in_depth(s, paths::inside(dir) + item.name, max_depth, depth + 1);
    }
}

} // verus!
