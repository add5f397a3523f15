//! The files that a batch sees: what is on the disk, and what has been staged over it.

use vstd::prelude::*;
use vstd::string::*;

use crate::bytes::copy_bytes;
use crate::error;
use crate::error::PatchError;
use crate::lists;
use crate::paths;
use crate::paths::{below_dir, join_path, resolve_path, PathSource, ResolvedPath};
use crate::similarity::{Threshold, DEFAULT_THRESHOLD_UNITS};
use crate::text;
use crate::text::{chars_of, index_from, same_text, text_of};

verus! {

// ---------------------------------------------------------------------------
// The disk
// ---------------------------------------------------------------------------

/// What a path is on the disk.
#[derive(Debug)]
pub enum Node {
    /// A regular file and its bytes.
    File(Vec<u8>),
    /// A directory, and what the system says where it is read as a file.
    Directory(String),
    /// A directory whose contents cannot be listed, and why.
    ClosedDirectory(String),
    /// A symbolic link to something that is there.
    Symlink,
    /// Something else, such as a device.
    Other,
    /// Something that cannot be looked at or read, and why.
    Unreadable(String),
}

/// The contents of a `Node`.
#[verifier::ext_equal]
pub enum NodeView {
    File(Seq<u8>),
    Directory(Seq<char>),
    ClosedDirectory(Seq<char>),
    Symlink,
    Other,
    Unreadable(Seq<char>),
}

impl View for Node {
    type V = NodeView;

    open spec fn view(&self) -> NodeView {
        match self {
            Node::File(b) => NodeView::File(b@),
            Node::Directory(m) => NodeView::Directory(m@),
            Node::ClosedDirectory(m) => NodeView::ClosedDirectory(m@),
            Node::Symlink => NodeView::Symlink,
            Node::Other => NodeView::Other,
            Node::Unreadable(m) => NodeView::Unreadable(m@),
        }
    }
}

/// A path on the disk, in normal form, and what it is.
#[derive(Debug)]
pub struct DiskEntry {
    pub path: String,
    pub node: Node,
}

/// The contents of a `DiskEntry`.
#[verifier::ext_equal]
pub struct EntryView {
    pub path: Seq<char>,
    pub node: NodeView,
}

impl View for DiskEntry {
    type V = EntryView;

    open spec fn view(&self) -> EntryView {
        EntryView { path: self.path@, node: self.node@ }
    }
}

/// The contents of a list of entries.
pub open spec fn entry_views(v: Seq<DiskEntry>) -> Seq<EntryView> {
    v.map_values(|e: DiskEntry| e@)
}

/// What a path is by the entries from `from` on. What has no entry is not there.
pub open spec fn node_from(disk: Seq<EntryView>, path: Seq<char>, from: int) -> Option<NodeView>
    decreases disk.len() - from,
{
    if from < 0 || from >= disk.len() {
        None
    } else if disk[from].path == path {
        Some(disk[from].node)
    } else {
        node_from(disk, path, from + 1)
    }
}

/// What a path is on the disk.
pub open spec fn node_at(disk: Seq<EntryView>, path: Seq<char>) -> Option<NodeView> {
    node_from(disk, path, 0)
}

/// Whether a path is a regular file on the disk.
pub open spec fn on_disk(disk: Seq<EntryView>, path: Seq<char>) -> bool {
    node_at(disk, path) matches Some(NodeView::File(_))
}

/// The entry of a path.
fn find_entry(disk: &Vec<DiskEntry>, path: &str) -> (r: Option<usize>)
    ensures
        match r {
            Some(i) => i < disk@.len() && node_at(entry_views(disk@), path@) == Some(
                disk@[i as int].node@,
            ),
            None => node_at(entry_views(disk@), path@) is None,
        },
{
    let ghost views = entry_views(disk@);
    let mut i: usize = 0;
    while i < disk.len()
        invariant
            0 <= i <= disk@.len(),
            views == entry_views(disk@),
            node_at(views, path@) == node_from(views, path@, i as int),
        decreases disk@.len() - i,
    {
        assert(views[i as int] == disk@[i as int]@);
        if same_text(disk[i].path.as_str(), path) {
            return Some(i);
        }
        i += 1;
    }
    None
}

// ---------------------------------------------------------------------------
// What is staged
// ---------------------------------------------------------------------------

/// A file as it is to be: its bytes, or nothing where it is to go.
#[derive(Debug)]
pub struct StagedFile {
    pub path: String,
    pub content: Option<Vec<u8>>,
}

/// The contents of a `StagedFile`.
#[verifier::ext_equal]
pub struct StagedView {
    pub path: Seq<char>,
    pub content: Option<Seq<u8>>,
}

/// The bytes of optional contents.
pub open spec fn opt_bytes(v: Option<Vec<u8>>) -> Option<Seq<u8>> {
    match v {
        Some(b) => Some(b@),
        None => None,
    }
}

impl View for StagedFile {
    type V = StagedView;

    open spec fn view(&self) -> StagedView {
        StagedView { path: self.path@, content: opt_bytes(self.content) }
    }
}

/// The contents of a list of staged files.
pub open spec fn staged_views(v: Seq<StagedFile>) -> Seq<StagedView> {
    v.map_values(|f: StagedFile| f@)
}

/// The place of a path among the staged files from `from` on, or their end.
pub open spec fn staged_index(staged: Seq<StagedView>, path: Seq<char>, from: int) -> int
    decreases staged.len() - from,
{
    if from < 0 || from >= staged.len() {
        staged.len() as int
    } else if staged[from].path == path {
        from
    } else {
        staged_index(staged, path, from + 1)
    }
}

/// What is staged for a path, if anything is.
pub open spec fn staged_at(staged: Seq<StagedView>, path: Seq<char>) -> Option<Option<Seq<u8>>> {
    let i = staged_index(staged, path, 0);
    if i < staged.len() {
        Some(staged[i].content)
    } else {
        None
    }
}

/// The staged files with one more, or with another content.
pub open spec fn put(
    staged: Seq<StagedView>,
    path: Seq<char>,
    content: Option<Seq<u8>>,
) -> Seq<StagedView> {
    let i = staged_index(staged, path, 0);
    if i < staged.len() {
        staged.update(i, StagedView { path, content })
    } else {
        staged.push(StagedView { path, content })
    }
}

/// Whether no path is staged twice.
pub open spec fn distinct(staged: Seq<StagedView>) -> bool {
    forall|i: int, j: int|
        0 <= i < j < staged.len() ==> (#[trigger] staged[i]).path != (#[trigger] staged[j]).path
}

/// What the place of a path is.
pub proof fn lemma_staged_index(staged: Seq<StagedView>, path: Seq<char>, from: int)
    requires
        0 <= from <= staged.len(),
    ensures
        from <= staged_index(staged, path, from) <= staged.len(),
        staged_index(staged, path, from) < staged.len() ==> staged[staged_index(
            staged,
            path,
            from,
        )].path == path,
        forall|i: int|
            from <= i < staged_index(staged, path, from) ==> (#[trigger] staged[i]).path != path,
    decreases staged.len() - from,
{
    if from < staged.len() && staged[from].path != path {
        lemma_staged_index(staged, path, from + 1);
    }
}

/// The first staged file of a path is where it is found.
proof fn lemma_index_is(staged: Seq<StagedView>, path: Seq<char>, from: int, k: int)
    requires
        0 <= from <= k <= staged.len(),
        forall|i: int| from <= i < k ==> (#[trigger] staged[i]).path != path,
        k < staged.len() ==> staged[k].path == path,
    ensures
        staged_index(staged, path, from) == k,
    decreases k - from,
{
    if from < k {
        lemma_index_is(staged, path, from + 1, k);
    }
}

/// What is staged for a path is what was put there last; other paths are left alone.
pub proof fn lemma_put(
    staged: Seq<StagedView>,
    path: Seq<char>,
    content: Option<Seq<u8>>,
    other: Seq<char>,
)
    ensures
        staged_at(put(staged, path, content), other) == (if other == path {
            Some(content)
        } else {
            staged_at(staged, other)
        }),
        distinct(staged) ==> distinct(put(staged, path, content)),
{
    let new = put(staged, path, content);
    let i = staged_index(staged, path, 0);
    lemma_staged_index(staged, path, 0);
    lemma_staged_index(staged, other, 0);
    lemma_staged_index(new, other, 0);
    if other == path {
        lemma_index_is(new, other, 0, i);
    } else {
        let k = staged_index(staged, other, 0);
        if k < staged.len() {
            lemma_index_is(new, other, 0, k);
        } else {
            lemma_index_is(new, other, 0, new.len() as int);
        }
    }
}

// ---------------------------------------------------------------------------
// Sessions
// ---------------------------------------------------------------------------

/// A batch at work: where it works, what is on the disk, and what has been staged.
#[derive(Debug)]
pub struct PatchSession {
    base: String,
    home: Option<String>,
    threshold: Threshold,
    disk: Vec<DiskEntry>,
    staged: Vec<StagedFile>,
}

/// The contents of a `PatchSession`.
#[verifier::ext_equal]
pub struct SessionView {
    pub base: Seq<char>,
    pub home: Option<Seq<char>>,
    pub threshold: Threshold,
    pub disk: Seq<EntryView>,
    pub staged: Seq<StagedView>,
}

impl View for PatchSession {
    type V = SessionView;

    closed spec fn view(&self) -> SessionView {
        SessionView {
            base: self.base@,
            home: lists::opt_text(self.home),
            threshold: self.threshold,
            disk: entry_views(self.disk@),
            staged: staged_views(self.staged@),
        }
    }
}

/// Whether a session is in order: its threshold is one, and no path is staged twice.
pub open spec fn session_wf(s: SessionView) -> bool {
    s.threshold.wf() && distinct(s.staged)
}

/// The session with something staged.
pub open spec fn with_staged(s: SessionView, staged: Seq<StagedView>) -> SessionView {
    SessionView { base: s.base, home: s.home, threshold: s.threshold, disk: s.disk, staged }
}

/// Whether a staged file makes a path a directory.
pub open spec fn implied_directory(staged: Seq<StagedView>, path: Seq<char>) -> bool {
    exists|i: int|
        0 <= i < staged.len() && (#[trigger] staged[i]).content is Some && paths::below(
            path,
            staged[i].path,
        ) is Some
}

/// A directory that is there for a staged file alone.
pub open spec fn implied_node() -> NodeView {
    NodeView::Directory("Not a regular file"@)
}

/// What a path is to the batch.
pub open spec fn virtual_node(s: SessionView, path: Seq<char>) -> Option<NodeView> {
    match staged_at(s.staged, path) {
        Some(Some(bytes)) => Some(NodeView::File(bytes)),
        Some(None) => if implied_directory(s.staged, path) {
            Some(implied_node())
        } else {
            None
        },
        None => match node_at(s.disk, path) {
            Some(node) => Some(node),
            None => if implied_directory(s.staged, path) {
                Some(implied_node())
            } else {
                None
            },
        },
    }
}

/// The kinds of path that an operation can work with.
#[derive(Debug, Clone, Copy, PartialEq, Eq)]
pub enum VirtualPathKind {
    Missing,
    File,
    Directory,
}

/// The kind of a path, or why no operation works with it.
pub open spec fn node_kind(node: Option<NodeView>, display: Seq<char>) -> Result<
    VirtualPathKind,
    error::PatchErrorView,
> {
    match node {
        None => Ok(VirtualPathKind::Missing),
        Some(NodeView::File(_)) => Ok(VirtualPathKind::File),
        Some(NodeView::Directory(_)) => Ok(VirtualPathKind::Directory),
        Some(NodeView::ClosedDirectory(_)) => Ok(VirtualPathKind::Directory),
        Some(NodeView::Symlink) => Err(error::PatchErrorView::SymlinkRejected(display)),
        Some(NodeView::Other) => Err(error::PatchErrorView::Io("Not a regular file"@)),
        Some(NodeView::Unreadable(m)) => Err(error::PatchErrorView::Io(m)),
    }
}

/// The full path of a path as it was given.
pub open spec fn full_path(s: SessionView, path: Seq<char>) -> Seq<char> {
    paths::resolved(s.base, s.home, path).0
}

/// The full path of a path as it was given, with all its components.
pub open spec fn shown_path(s: SessionView, path: Seq<char>) -> Seq<char> {
    paths::located(s.base, s.home, path).0
}

/// How a path was given.
pub open spec fn path_source(s: SessionView, path: Seq<char>) -> PathSource {
    paths::resolved(s.base, s.home, path).1
}

/// The kind of a path as it was given.
pub open spec fn path_kind(s: SessionView, path: Seq<char>) -> Result<
    VirtualPathKind,
    error::PatchErrorView,
> {
    node_kind(virtual_node(s, full_path(s, path)), path)
}

/// The bytes of the file of a path as it was given.
pub open spec fn file_bytes(s: SessionView, path: Seq<char>) -> Result<
    Seq<u8>,
    error::PatchErrorView,
> {
    match path_kind(s, path) {
        Err(e) => Err(e),
        Ok(VirtualPathKind::Missing) => Err(error::PatchErrorView::FileNotFound(path)),
        Ok(VirtualPathKind::Directory) => Err(error::PatchErrorView::Io("Not a regular file"@)),
        Ok(VirtualPathKind::File) => Ok(virtual_node(s, full_path(s, path))->0->File_0),
    }
}

/// A file as the batch sees it.
#[derive(Debug)]
pub struct VirtualRead {
    pub bytes: Vec<u8>,
    /// Whether the batch has changed the file.
    pub staged: bool,
    pub path_source: PathSource,
}

/// What a path is to the batch, without the contents.
#[derive(Debug)]
pub enum Sight {
    Missing,
    File,
    Directory,
    Symlink,
    Other,
    Unreadable(String),
}

/// Whether a sight is that of a path.
pub open spec fn shows(sight: Sight, node: Option<NodeView>) -> bool {
    match sight {
        Sight::Missing => node is None,
        Sight::File => node matches Some(NodeView::File(_)),
        Sight::Directory => (node matches Some(NodeView::Directory(_))) || (node matches Some(
            NodeView::ClosedDirectory(_),
        )),
        Sight::Symlink => node matches Some(NodeView::Symlink),
        Sight::Other => node matches Some(NodeView::Other),
        Sight::Unreadable(m) => node == Some(NodeView::Unreadable(m@)),
    }
}

/// Where what a path is can be found.
enum Seen {
    Missing,
    Staged(usize),
    OnDisk(usize),
    Implied,
}

impl PatchSession {
    /// Where what a path is can be found.
    closed spec fn sees(&self, seen: Seen, path: Seq<char>) -> bool {
        match seen {
            Seen::Missing => virtual_node(self@, path) is None,
            Seen::Implied => virtual_node(self@, path) == Some(implied_node()),
            Seen::Staged(i) => {
                &&& i < self.staged@.len()
                &&& self.staged@[i as int].content is Some
                &&& virtual_node(self@, path) == Some(
                    NodeView::File(self.staged@[i as int].content->0@),
                )
            },
            Seen::OnDisk(i) => {
                &&& i < self.disk@.len()
                &&& virtual_node(self@, path) == Some(self.disk@[i as int].node@)
            },
        }
    }

    /// A session that has staged nothing.
    pub fn new(
        base: String,
        home: Option<String>,
        threshold: Option<Threshold>,
        disk: Vec<DiskEntry>,
    ) -> (r: PatchSession)
        requires
            threshold is Some ==> threshold->0.wf(),
        ensures
            session_wf(r@),
            r@ == (SessionView {
                base: base@,
                home: lists::opt_text(home),
                threshold: match threshold {
                    Some(t) => t,
                    None => Threshold { units: DEFAULT_THRESHOLD_UNITS },
                },
                disk: entry_views(disk@),
                staged: Seq::empty(),
            }),
    {
        let t = match threshold {
            Some(t) => t,
            None => Threshold { units: DEFAULT_THRESHOLD_UNITS },
        };
        let staged: Vec<StagedFile> = Vec::new();
        assert(staged_views(staged@) =~= Seq::empty());
        PatchSession { base, home, threshold: t, disk, staged }
    }

    /// The threshold of the session.
    pub fn threshold(&self) -> (r: Threshold)
        ensures
            r == self@.threshold,
    {
        self.threshold
    }

    /// Resolves a path as it was given.
    pub fn resolve_path(&self, path: &str) -> (r: ResolvedPath)
        ensures
            r.full_path@ == full_path(self@, path@),
            r.shown_path@ == shown_path(self@, path@),
            r.source == path_source(self@, path@),
    {
        resolve_path(self.base.as_str(), &self.home, path)
    }

    /// The place of a path among the staged files.
    fn find_staged(&self, path: &str) -> (r: usize)
        ensures
            r == staged_index(self@.staged, path@, 0),
            r <= self.staged@.len(),
    {
        let ghost views = staged_views(self.staged@);
        let mut i: usize = 0;
        while i < self.staged.len()
            invariant
                0 <= i <= self.staged@.len(),
                views == staged_views(self.staged@),
                staged_index(views, path@, 0) == staged_index(views, path@, i as int),
            decreases self.staged@.len() - i,
        {
            assert(views[i as int] == self.staged@[i as int]@);
            if same_text(self.staged[i].path.as_str(), path) {
                return i;
            }
            i += 1;
        }
        i
    }

    /// Whether a staged file makes a path a directory.
    fn is_implied(&self, path: &str) -> (r: bool)
        ensures
            r == implied_directory(self@.staged, path@),
    {
        let ghost views = staged_views(self.staged@);
        let mut i: usize = 0;
        while i < self.staged.len()
            invariant
                0 <= i <= self.staged@.len(),
                views == staged_views(self.staged@),
                forall|j: int|
                    0 <= j < i ==> !((#[trigger] views[j]).content is Some && paths::below(
                        path@,
                        views[j].path,
                    ) is Some),
            decreases self.staged@.len() - i,
        {
            let f = &self.staged[i];
            assert(views[i as int] == f@);
            if f.content.is_some() && below_dir(path, f.path.as_str()).is_some() {
                return true;
            }
            i += 1;
        }
        false
    }

    /// Looks for what a path is.
    fn look(&self, path: &str) -> (r: Seen)
        ensures
            self.sees(r, path@),
    {
        let i: usize = self.find_staged(path);
        if i < self.staged.len() {
            assert(self@.staged[i as int] == self.staged@[i as int]@);
            if self.staged[i].content.is_some() {
                Seen::Staged(i)
            } else if self.is_implied(path) {
                Seen::Implied
            } else {
                Seen::Missing
            }
        } else {
            match find_entry(&self.disk, path) {
                Some(k) => Seen::OnDisk(k),
                None => if self.is_implied(path) {
                    Seen::Implied
                } else {
                    Seen::Missing
                },
            }
        }
    }

    /// What a full path is to the batch.
    pub fn see(&self, path: &str) -> (r: Sight)
        ensures
            shows(r, virtual_node(self@, path@)),
    {
        match self.look(path) {
            Seen::Missing => Sight::Missing,
            Seen::Staged(_) => Sight::File,
            Seen::Implied => Sight::Directory,
            Seen::OnDisk(i) => match &self.disk[i].node {
                Node::File(_) => Sight::File,
                Node::Directory(_) => Sight::Directory,
                Node::ClosedDirectory(_) => Sight::Directory,
                Node::Symlink => Sight::Symlink,
                Node::Other => Sight::Other,
                Node::Unreadable(m) => Sight::Unreadable(m.clone()),
            },
        }
    }

    /// Where a full path is a directory, why it cannot be read as a file.
    pub fn directory_problem(&self, path: &str) -> (r: Option<String>)
        ensures
            match r {
                Some(m) => virtual_node(self@, path@) == Some(NodeView::Directory(m@)),
                None => !(virtual_node(self@, path@) matches Some(NodeView::Directory(_))),
            },
    {
        match self.look(path) {
            Seen::Implied => Some("Not a regular file".to_owned()),
            Seen::OnDisk(i) => match &self.disk[i].node {
                Node::Directory(m) => Some(m.clone()),
                _ => None,
            },
            _ => None,
        }
    }

    /// The kind of the full path `path`.
    fn kind_at(&self, path: &str, display: &str) -> (r: Result<VirtualPathKind, PatchError>)
        ensures
            match r {
                Ok(k) => node_kind(virtual_node(self@, path@), display@) == Ok::<
                    VirtualPathKind,
                    error::PatchErrorView,
                >(k),
                Err(e) => node_kind(virtual_node(self@, path@), display@) == Err::<
                        VirtualPathKind,
                        error::PatchErrorView,
                    >(e@),
            },
    {
        match self.look(path) {
            Seen::Missing => Ok(VirtualPathKind::Missing),
            Seen::Staged(_) => Ok(VirtualPathKind::File),
            Seen::Implied => Ok(VirtualPathKind::Directory),
            Seen::OnDisk(i) => match &self.disk[i].node {
                Node::File(_) => Ok(VirtualPathKind::File),
                Node::Directory(_) => Ok(VirtualPathKind::Directory),
                Node::ClosedDirectory(_) => Ok(VirtualPathKind::Directory),
                Node::Symlink => Err(PatchError::SymlinkRejected(display.to_owned())),
                Node::Other => Err(PatchError::Io("Not a regular file".to_owned())),
                Node::Unreadable(m) => Err(PatchError::Io(m.clone())),
            },
        }
    }

    /// The kind of a path as it was given.
    pub fn resolve_virtual_kind(&self, path: &str) -> (r: Result<
        (ResolvedPath, VirtualPathKind),
        PatchError,
    >)
        ensures
            match r {
                Ok(found) => {
                    &&& path_kind(self@, path@) == Ok::<VirtualPathKind, error::PatchErrorView>(
                        found.1,
                    )
                    &&& found.0.full_path@ == full_path(self@, path@)
                    &&& found.0.shown_path@ == shown_path(self@, path@)
                    &&& found.0.source == path_source(self@, path@)
                },
                Err(e) => path_kind(self@, path@) == Err::<VirtualPathKind, error::PatchErrorView>(
                        e@,
                    ),
            },
    {
        let found = self.resolve_path(path);
        match self.kind_at(found.full_path.as_str(), path) {
            Ok(k) => Ok((found, k)),
            Err(e) => Err(e),
        }
    }

    /// The bytes of the file at a full path, and whether the batch has changed it.
    pub fn read_virtual_bytes_at(&self, path: &str) -> (r: Option<(Vec<u8>, bool)>)
        ensures
            match r {
                Some(found) => {
                    &&& virtual_node(self@, path@) == Some(NodeView::File(found.0@))
                    &&& found.1 == (staged_at(self@.staged, path@) is Some)
                },
                None => !(virtual_node(self@, path@) matches Some(NodeView::File(_))),
            },
    {
        let i: usize = self.find_staged(path);
        if i < self.staged.len() {
            assert(self@.staged[i as int] == self.staged@[i as int]@);
            match &self.staged[i].content {
                Some(b) => Some((copy_bytes(b), true)),
                None => None,
            }
        } else {
            match find_entry(&self.disk, path) {
                Some(k) => match &self.disk[k].node {
                    Node::File(b) => Some((copy_bytes(b), false)),
                    _ => None,
                },
                None => None,
            }
        }
    }

    /// The file of a path as it was given.
    pub fn read_virtual_file(&self, path: &str) -> (r: Result<VirtualRead, PatchError>)
        ensures
            match r {
                Ok(f) => {
                    &&& file_bytes(self@, path@) == Ok::<Seq<u8>, error::PatchErrorView>(f.bytes@)
                    &&& f.staged == (staged_at(self@.staged, full_path(self@, path@)) is Some)
                    &&& f.path_source == path_source(self@, path@)
                },
                Err(e) => file_bytes(self@, path@) == Err::<Seq<u8>, error::PatchErrorView>(e@),
            },
    {
        let (found, kind) = match self.resolve_virtual_kind(path) {
            Ok(found) => found,
            Err(e) => {
                return Err(e);
            },
        };
        match kind {
            VirtualPathKind::Missing => Err(PatchError::FileNotFound(path.to_owned())),
            VirtualPathKind::Directory => Err(PatchError::Io("Not a regular file".to_owned())),
            VirtualPathKind::File => match self.read_virtual_bytes_at(found.full_path.as_str()) {
                Some((bytes, staged)) => Ok(
                    VirtualRead { bytes, staged, path_source: found.source },
                ),
                None => Err(PatchError::FileNotFound(path.to_owned())),
            },
        }
    }

    /// Stages a file as it is to be.
    pub fn stage(&mut self, path: String, content: Option<Vec<u8>>)
        requires
            session_wf(old(self)@),
        ensures
            session_wf(final(self)@),
            final(self)@ == with_staged(
                old(self)@,
                put(old(self)@.staged, path@, opt_bytes(content)),
            ),
    {
        let ghost before = self@;
        let i: usize = self.find_staged(path.as_str());
        let f = StagedFile { path, content };
        proof {
            lemma_put(before.staged, path@, opt_bytes(content), path@);
        }
        let ghost list = self.staged@;
        if i < self.staged.len() {
            self.staged.set(i, f);
            assert(staged_views(self.staged@) =~= staged_views(list).update(i as int, f@));
        } else {
            self.staged.push(f);
            assert(staged_views(self.staged@) =~= staged_views(list).push(f@));
        }
        assert(self@ =~= with_staged(before, put(before.staged, path@, opt_bytes(content))));
    }

    /// Whether a full path is a regular file on the disk.
    pub fn is_on_disk(&self, path: &str) -> (r: bool)
        ensures
            r == on_disk(self@.disk, path@),
    {
        match find_entry(&self.disk, path) {
            Some(i) => match &self.disk[i].node {
                Node::File(_) => true,
                _ => false,
            },
            None => false,
        }
    }

    /// What has been staged.
    pub fn staged_files(&self) -> (r: &Vec<StagedFile>)
        ensures
            staged_views(r@) == self@.staged,
    {
        &self.staged
    }
}

// ---------------------------------------------------------------------------
// Directories
// ---------------------------------------------------------------------------

/// Something in a directory.
#[derive(Debug)]
pub struct DirItem {
    pub name: String,
    pub is_dir: bool,
}

/// The contents of a `DirItem`.
#[verifier::ext_equal]
pub struct ItemView {
    pub name: Seq<char>,
    pub is_dir: bool,
}

impl View for DirItem {
    type V = ItemView;

    open spec fn view(&self) -> ItemView {
        ItemView { name: self.name@, is_dir: self.is_dir }
    }
}

/// The contents of a list of items.
pub open spec fn item_views(v: Seq<DirItem>) -> Seq<ItemView> {
    v.map_values(|i: DirItem| i@)
}

/// Whether a list has an item of a name.
pub open spec fn has_item(list: Seq<ItemView>, name: Seq<char>) -> bool {
    exists|i: int| 0 <= i < list.len() && (#[trigger] list[i]).name == name
}

/// A list with one item more, unless it has one of that name.
pub open spec fn with_item(list: Seq<ItemView>, item: ItemView) -> Seq<ItemView> {
    if has_item(list, item.name) {
        list
    } else {
        list.push(item)
    }
}

/// What a directory shows of something in it. Links and devices are not shown.
pub open spec fn item_of(name: Seq<char>, node: Option<NodeView>) -> Option<ItemView> {
    match node {
        Some(NodeView::File(_)) => Some(ItemView { name, is_dir: false }),
        Some(NodeView::Unreadable(_)) => Some(ItemView { name, is_dir: false }),
        Some(NodeView::Directory(_)) => Some(ItemView { name, is_dir: true }),
        Some(NodeView::ClosedDirectory(_)) => Some(ItemView { name, is_dir: true }),
        _ => None,
    }
}

/// What the first `k` entries of the disk give a directory.
pub open spec fn disk_items(s: SessionView, dir: Seq<char>, k: int) -> Seq<ItemView>
    decreases k,
{
    if k <= 0 {
        Seq::empty()
    } else {
        let before = disk_items(s, dir, k - 1);
        let path = s.disk[k - 1].path;
        match paths::below(dir, path) {
            Some(rest) => if text::first_index(rest, '/') < rest.len() {
                before
            } else {
                match item_of(rest, virtual_node(s, path)) {
                    Some(item) => with_item(before, item),
                    None => before,
                }
            },
            None => before,
        }
    }
}

/// What the first `k` staged files give a directory besides: the files in it, and the
/// directories that files are in.
pub open spec fn staged_items(
    s: SessionView,
    dir: Seq<char>,
    list: Seq<ItemView>,
    k: int,
) -> Seq<ItemView>
    decreases k,
{
    if k <= 0 {
        list
    } else {
        let before = staged_items(s, dir, list, k - 1);
        let f = s.staged[k - 1];
        match paths::below(dir, f.path) {
            Some(rest) => if f.content is Some {
                let end = text::first_index(rest, '/');
                with_item(before, ItemView { name: rest.take(end), is_dir: end < rest.len() })
            } else {
                before
            },
            None => before,
        }
    }
}

/// What is in a directory.
pub open spec fn listing(s: SessionView, dir: Seq<char>) -> Seq<ItemView> {
    staged_items(s, dir, disk_items(s, dir, s.disk.len() as int), s.staged.len() as int)
}

/// What is in a directory, or why that cannot be said.
pub open spec fn dir_listing(s: SessionView, dir: Seq<char>) -> Result<Seq<ItemView>, Seq<char>> {
    match virtual_node(s, dir) {
        Some(NodeView::ClosedDirectory(m)) => Err(m),
        _ => Ok(listing(s, dir)),
    }
}

/// Adds an item to a list, unless it has one of that name.
fn add_item(list: &mut Vec<DirItem>, item: DirItem)
    ensures
        item_views(final(list)@) == with_item(item_views(old(list)@), item@),
{
    let ghost views = item_views(list@);
    let mut i: usize = 0;
    while i < list.len()
        invariant
            0 <= i <= list@.len(),
            views == item_views(list@),
            forall|j: int| 0 <= j < i ==> (#[trigger] views[j]).name != item.name@,
        decreases list@.len() - i,
    {
        assert(views[i as int] == list@[i as int]@);
        if same_text(list[i].name.as_str(), item.name.as_str()) {
            return;
        }
        i += 1;
    }
    let ghost before = list@;
    list.push(item);
    assert(item_views(list@) =~= item_views(before).push(item@));
}

impl PatchSession {
    /// What is in the directory of a full path, or why that cannot be said.
    pub fn list_virtual_dir(&self, dir: &str) -> (r: Result<Vec<DirItem>, String>)
        ensures
            match r {
                Ok(list) => dir_listing(self@, dir@) == Ok::<Seq<ItemView>, Seq<char>>(
                    item_views(list@),
                ),
                Err(m) => dir_listing(self@, dir@) == Err::<Seq<ItemView>, Seq<char>>(m@),
            },
    {
        if let Seen::OnDisk(i) = self.look(dir) {
            if let Node::ClosedDirectory(m) = &self.disk[i].node {
                return Err(m.clone());
            }
        }
        let ghost s = self@;
        let mut list: Vec<DirItem> = Vec::new();
        let mut k: usize = 0;
        assert(item_views(list@) =~= disk_items(s, dir@, 0));
        while k < self.disk.len()
            invariant
                0 <= k <= self.disk@.len(),
                s == self@,
                item_views(list@) == disk_items(s, dir@, k as int),
            decreases self.disk@.len() - k,
        {
            let path = self.disk[k].path.as_str();
            assert(s.disk[k as int] == self.disk@[k as int]@);
            if let Some(rest) = below_dir(dir, path) {
                let v = chars_of(rest.as_str());
                assert(v@.skip(0) =~= v@);
                if index_from(&v, 0, '/') == v.len() {
                    match self.see(path) {
                        Sight::File | Sight::Unreadable(_) => {
                            add_item(&mut list, DirItem { name: rest, is_dir: false });
                        },
                        Sight::Directory => {
                            add_item(&mut list, DirItem { name: rest, is_dir: true });
                        },
                        _ => {},
                    }
                }
            }
            k += 1;
        }
        let ghost first = item_views(list@);
        let mut j: usize = 0;
        while j < self.staged.len()
            invariant
                0 <= j <= self.staged@.len(),
                s == self@,
                item_views(list@) == staged_items(s, dir@, first, j as int),
            decreases self.staged@.len() - j,
        {
            let f = &self.staged[j];
            assert(s.staged[j as int] == f@);
            if f.content.is_some() {
                if let Some(rest) = below_dir(dir, f.path.as_str()) {
                    let v = chars_of(rest.as_str());
                    assert(v@.skip(0) =~= v@);
                    let end: usize = index_from(&v, 0, '/');
                    let name = text_of(&v, 0, end);
                    assert(name@ =~= rest@.take(end as int));
                    add_item(&mut list, DirItem { name, is_dir: end < v.len() });
                }
            }
            j += 1;
        }
        Ok(list)
    }
}

/// Rejects symbolic links. `look` is what is at the path, or why it could not be looked at.
pub fn check_symlink(look: &Result<Node, String>, display_path: &str) -> (r: Result<
    (),
    PatchError,
>)
    ensures
        match r {
            Ok(_) => look is Ok && !(look->Ok_0 is Symlink),
            Err(e) => match look {
                Ok(node) => node is Symlink && e@ == error::PatchErrorView::SymlinkRejected(
                    display_path@,
                ),
                Err(m) => e@ == error::PatchErrorView::Io(m@),
            },
        },
{
    match look {
        Ok(Node::Symlink) => Err(PatchError::SymlinkRejected(display_path.to_owned())),
        Ok(_) => Ok(()),
        Err(m) => Err(PatchError::Io(m.clone())),
    }
}

/// The path of `rel_path` seen from `base_dir`. Every path is allowed.
pub fn validate_path(base_dir: &str, rel_path: &str) -> (r: Result<String, PatchError>)
    ensures
        r is Ok,
        r->Ok_0@ == paths::joined(base_dir@, rel_path@),
{
    Ok(join_path(base_dir, rel_path))
}

} // verus!
