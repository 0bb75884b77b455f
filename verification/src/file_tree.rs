//! The tree of files beside the text: directories that unfold, and a
//! pointer to each shown entry as the path of child indices down to it.
use crate::buffer::Buffer;
use crate::buffers::{has_key, key_index, keys_unique, Buffers, Inode, OnlineState};
use crate::text::{string_push, string_push_str};
use vstd::prelude::*;

verus! {

/// An entry of the tree: a file or a directory, shown unfolded or not, with
/// its children once the directory was read (`dirty` until then).
pub struct FileTreeNode {
    pub path: String,
    pub name: String,
    pub is_dir: bool,
    pub expanded: bool,
    pub dirty: bool,
    pub inode: Option<Inode>,
    pub children: Vec<FileTreeNode>,
}

/// The entry that the child indices `p` lead to from `n`, going only into
/// unfolded directories: the entries shown.
pub open spec fn node_at(n: FileTreeNode, p: Seq<usize>) -> Option<FileTreeNode>
    decreases p.len(),
{
    if p.len() == 0 {
        Some(n)
    } else if !n.expanded || p[0] >= n.children@.len() {
        None
    } else {
        node_at(n.children@[p[0] as int], p.drop_first())
    }
}

/// The entry that the child indices `p` lead to from `n`, folded or not.
pub open spec fn node_at_any(n: FileTreeNode, p: Seq<usize>) -> Option<FileTreeNode>
    decreases p.len(),
{
    if p.len() == 0 {
        Some(n)
    } else if p[0] >= n.children@.len() {
        None
    } else {
        node_at_any(n.children@[p[0] as int], p.drop_first())
    }
}

/// `m` is `n` with the entry at the child indices `p` replaced by `v`.
pub open spec fn updated_at(n: FileTreeNode, m: FileTreeNode, p: Seq<usize>, v: FileTreeNode) -> bool
    decreases p.len(),
{
    if p.len() == 0 {
        m == v
    } else {
        &&& p[0] < n.children@.len()
        &&& m.path == n.path
        &&& m.name == n.name
        &&& m.is_dir == n.is_dir
        &&& m.expanded == n.expanded
        &&& m.dirty == n.dirty
        &&& m.inode == n.inode
        &&& m.children@.len() == n.children@.len()
        &&& forall|j: int| 0 <= j < n.children@.len() && j != p[0] ==> #[trigger] m.children@[j] == n.children@[j]
        &&& updated_at(n.children@[p[0] as int], m.children@[p[0] as int], p.drop_first(), v)
    }
}

impl FileTreeNode {
    /// A directory at `path`, shown as `name`, folded and not read yet.
    pub fn dir_from(path: String, name: String) -> (r: FileTreeNode)
        ensures
            r.path == path,
            r.name == name,
            r.is_dir,
            !r.expanded,
            r.dirty,
            r.inode is None,
            r.children@.len() == 0,
    {
        FileTreeNode { inode: None, path, name, dirty: true, is_dir: true, expanded: false, children: Vec::new() }
    }

    /// A file at `path`, shown as `name`.
    pub fn file_from(path: String, name: String) -> (r: FileTreeNode)
        ensures
            r.path == path,
            r.name == name,
            !r.is_dir,
            !r.expanded,
            !r.dirty,
            r.inode is None,
            r.children@.len() == 0,
    {
        FileTreeNode { inode: None, path, name, dirty: false, is_dir: false, expanded: false, children: Vec::new() }
    }

    /// The entry that `pointer` leads to among the entries shown.
    pub fn get(&self, pointer: &NodePointer) -> (r: Option<&FileTreeNode>)
        ensures
            r is Some <==> node_at(*self, pointer.inner@) is Some,
            r matches Some(x) ==> node_at(*self, pointer.inner@) == Some(*x),
    {
        let ghost p = pointer.inner@;
        let mut parent = self;
        let mut i: usize = 0;
        assert(p.skip(0) =~= p);
        while i < pointer.inner.len()
            invariant
                i <= p.len(),
                p == pointer.inner@,
                node_at(*self, p) == node_at(*parent, p.skip(i as int)),
            decreases p.len() - i,
        {
            assert(p.skip(i as int).drop_first() =~= p.skip(i + 1));
            assert(p.skip(i as int)[0] == p[i as int]);
            if !parent.expanded {
                return None;
            }
            let k = pointer.inner[i];
            if k >= parent.children.len() {
                return None;
            }
            parent = &parent.children[k];
            i = i + 1;
        }
        assert(p.skip(i as int) =~= Seq::<usize>::empty());
        Some(parent)
    }

    /// Whether the indices `p` from the `k`-th on lead to an entry, folded or
    /// not.
    fn has_path(&self, p: &Vec<usize>, k: usize) -> (r: bool)
        requires
            k <= p@.len(),
        ensures
            r == node_at_any(*self, p@.skip(k as int)) is Some,
        decreases p@.len() - k,
    {
        if k == p.len() {
            assert(p@.skip(k as int) =~= Seq::<usize>::empty());
            return true;
        }
        assert(p@.skip(k as int).drop_first() =~= p@.skip(k + 1));
        assert(p@.skip(k as int)[0] == p@[k as int]);
        let i = p[k];
        if i >= self.children.len() {
            return false;
        }
        self.children[i].has_path(p, k + 1)
    }

    /// The entry that the indices `p` from the `k`-th on lead to, folded or
    /// not, to change.
    fn descend(&mut self, p: &Vec<usize>, k: usize) -> (r: &mut FileTreeNode)
        requires
            k <= p@.len(),
            node_at_any(*old(self), p@.skip(k as int)) is Some,
        ensures
            node_at_any(*old(self), p@.skip(k as int)) == Some(*r),
            updated_at(*old(self), *final(self), p@.skip(k as int), *final(r)),
        decreases p@.len() - k,
    {
        if k == p.len() {
            assert(p@.skip(k as int) =~= Seq::<usize>::empty());
            return self;
        }
        assert(p@.skip(k as int).drop_first() =~= p@.skip(k + 1));
        assert(p@.skip(k as int)[0] == p@[k as int]);
        let i = p[k];
        let child = &mut self.children[i];
        child.descend(p, k + 1)
    }

    /// The entry that `pointer` leads to, folded or not, to change.
    pub fn get_mut(&mut self, pointer: &NodePointer) -> (r: Option<&mut FileTreeNode>)
        ensures
            r is Some <==> node_at_any(*old(self), pointer.inner@) is Some,
            r matches Some(x) ==> node_at_any(*old(self), pointer.inner@) == Some(*x)
                && updated_at(*old(self), *final(self), pointer.inner@, *final(x)),
            r is None ==> *final(self) == *old(self),
    {
        assert(pointer.inner@.skip(0) =~= pointer.inner@);
        if self.has_path(&pointer.inner, 0) {
            Some(self.descend(&pointer.inner, 0))
        } else {
            None
        }
    }
}

/// The path of child indices from the root of the tree to an entry.
pub struct NodePointer {
    pub inner: Vec<usize>,
}

impl NodePointer {
    /// The root.
    pub fn new() -> (r: Self)
        ensures
            r.inner@.len() == 0,
    {
        NodePointer { inner: Vec::new() }
    }
}

/// The entry made of a directory listing's entry `e` (its path, its name,
/// and whether it is a file): a file, or a directory not read yet.
pub open spec fn entry_node(c: FileTreeNode, e: (String, String, bool)) -> bool {
    &&& c.path == e.0
    &&& c.name == e.1
    &&& c.is_dir == !e.2
    &&& !c.expanded
    &&& c.dirty == !e.2
    &&& c.inode is None
    &&& c.children@.len() == 0
}

/// `m` is `n` after its directory was read with the listing `l`: not
/// dirty, with one child for each entry of `l`, in order.
pub open spec fn read_into(n: FileTreeNode, m: FileTreeNode, l: Seq<(String, String, bool)>) -> bool {
    &&& m.path == n.path
    &&& m.name == n.name
    &&& m.is_dir == n.is_dir
    &&& m.expanded == n.expanded
    &&& !m.dirty
    &&& m.inode == n.inode
    &&& m.children@.len() == l.len()
    &&& forall|i: int| 0 <= i < l.len() ==> entry_node(#[trigger] m.children@[i], l[i])
}

/// How an entry is drawn.
#[derive(Debug, Clone, Copy, PartialEq, Eq, Structural)]
pub enum ColoringProto {
    File,
    Dir,
}

impl FileTreeNode {
    /// Reads the directory where it was not read yet, through `list_dir`
    /// (which gets its path and gives its entries: path, name, and whether
    /// each is a file), and makes a child of each entry.
    pub fn undirty<F: FnOnce(&String) -> Vec<(String, String, bool)>>(&mut self, list_dir: F)
        requires
            old(self).dirty ==> call_requires(list_dir, (&old(self).path,)),
        ensures
            !old(self).dirty ==> *final(self) == *old(self),
            old(self).dirty ==> exists|l: Vec<(String, String, bool)>| #![trigger call_ensures(list_dir, (&old(self).path,), l)]
                call_ensures(list_dir, (&old(self).path,), l) && read_into(*old(self), *final(self), l@),
    {
        if self.dirty {
            self.dirty = false;
            let listing = list_dir(&self.path);
            let mut children: Vec<FileTreeNode> = Vec::new();
            let mut i: usize = 0;
            while i < listing.len()
                invariant
                    i <= listing@.len(),
                    children@.len() == i,
                    forall|k: int| 0 <= k < i ==> entry_node(#[trigger] children@[k], listing@[k]),
                decreases listing@.len() - i,
            {
                let e = &listing[i];
                let child = if e.2 {
                    FileTreeNode::file_from(e.0.clone(), e.1.clone())
                } else {
                    FileTreeNode::dir_from(e.0.clone(), e.1.clone())
                };
                children.push(child);
                i = i + 1;
            }
            self.children = children;
        }
    }

    /// Unfolds a directory, reading it where it was not read yet (see
    /// [`FileTreeNode::undirty`]); a file stays as it is.
    pub fn expand<F: FnOnce(&String) -> Vec<(String, String, bool)>>(&mut self, list_dir: F)
        requires
            old(self).is_dir && old(self).dirty ==> call_requires(list_dir, (&old(self).path,)),
        ensures
            !old(self).is_dir ==> *final(self) == *old(self),
            old(self).is_dir && !old(self).dirty ==> *final(self) == (FileTreeNode { expanded: true, ..*old(self) }),
            old(self).is_dir && old(self).dirty ==> exists|l: Vec<(String, String, bool)>|
                #![trigger call_ensures(list_dir, (&old(self).path,), l)]
                call_ensures(list_dir, (&old(self).path,), l)
                && read_into(FileTreeNode { expanded: true, ..*old(self) }, *final(self), l@),
    {
        if !self.is_dir {
            return;
        }
        self.expanded = true;
        self.undirty(list_dir);
    }

    /// A click on the entry: a directory folds or unfolds (see
    /// [`FileTreeNode::expand`]); a file is to be opened, and its path is
    /// returned for that.
    pub fn handle_single_click<F: FnOnce(&String) -> Vec<(String, String, bool)>>(&mut self, list_dir: F) -> (r: Option<String>)
        requires
            old(self).is_dir && !old(self).expanded && old(self).dirty ==> call_requires(list_dir, (&old(self).path,)),
        ensures
            !old(self).is_dir ==> *final(self) == *old(self) && r == Some(old(self).path),
            old(self).is_dir ==> r is None,
            old(self).is_dir && old(self).expanded ==> *final(self) == (FileTreeNode { expanded: false, ..*old(self) }),
            old(self).is_dir && !old(self).expanded && !old(self).dirty ==> *final(self) == (FileTreeNode { expanded: true, ..*old(self) }),
            old(self).is_dir && !old(self).expanded && old(self).dirty ==> exists|l: Vec<(String, String, bool)>|
                #![trigger call_ensures(list_dir, (&old(self).path,), l)]
                call_ensures(list_dir, (&old(self).path,), l)
                && read_into(FileTreeNode { expanded: true, ..*old(self) }, *final(self), l@),
    {
        if self.is_dir {
            if self.expanded {
                self.expanded = false;
            } else {
                self.expand(list_dir);
            }
            None
        } else {
            Some(self.path.clone())
        }
    }

    /// The inode of the entry's file: the one known, or else the one that
    /// `lookup` finds for its path, which is then kept.
    pub fn get_inode<F: FnOnce(&String) -> Inode>(&mut self, lookup: F) -> (r: Inode)
        requires
            old(self).inode is None ==> call_requires(lookup, (&old(self).path,)),
        ensures
            old(self).inode matches Some(i) ==> r == i && *final(self) == *old(self),
            old(self).inode is None ==> call_ensures(lookup, (&old(self).path,), r)
                && *final(self) == (FileTreeNode { inode: Some(r), ..*old(self) }),
    {
        match self.inode {
            Some(inode) => inode,
            None => {
                let inode = lookup(&self.path);
                self.inode = Some(inode);
                inode
            },
        }
    }

    /// How the entry is drawn: as a directory or as a file.
    pub fn get_coloring_proto(&self) -> (r: ColoringProto)
        ensures
            r == (if self.is_dir { ColoringProto::Dir } else { ColoringProto::File }),
    {
        if self.is_dir {
            ColoringProto::Dir
        } else {
            ColoringProto::File
        }
    }
}

/// Moving on from the pointer `s` to the next entry shown, in the order the
/// tree lists them: `s` itself where it leads to an entry shown; otherwise its
/// last index is dropped and the one before it moves to the next sibling, and
/// so on. It fails, leaving the root, where that runs out of indices; it also
/// fails where an index cannot grow (it would panic there).
pub open spec fn advance(root: FileTreeNode, s: Seq<usize>) -> (bool, Seq<usize>)
    decreases s.len(),
{
    if node_at(root, s) is Some {
        (true, s)
    } else if s.len() <= 1 {
        (false, Seq::empty())
    } else {
        let t = s.drop_last();
        if t.last() == usize::MAX {
            (false, t)
        } else {
            advance(root, t.update(t.len() - 1, (t.last() + 1) as usize))
        }
    }
}

/// Moving on `n` entries from the pointer `p`: how many moves succeed, and
/// where the pointer ends.
pub open spec fn walk(root: FileTreeNode, p: Seq<usize>, n: nat) -> (nat, Seq<usize>)
    decreases n,
{
    if n == 0 {
        (0, p)
    } else {
        let a = advance(root, p.push(0));
        if !a.0 {
            (0, a.1)
        } else {
            let w = walk(root, a.1, (n - 1) as nat);
            (w.0 + 1, w.1)
        }
    }
}

impl NodePointer {
    /// Moves to the next entry shown (see [`advance`]): the first child where
    /// it is an unfolded directory with children, else the next sibling of
    /// it or of a directory above it.
    pub fn push_0(&mut self, root: &FileTreeNode) -> (r: Result<(), ()>)
        ensures
            (r is Ok) == advance(*root, old(self).inner@.push(0)).0,
            final(self).inner@ == advance(*root, old(self).inner@.push(0)).1,
    {
        self.inner.push(0);
        loop
            invariant
                advance(*root, self.inner@) == advance(*root, old(self).inner@.push(0)),
            decreases self.inner@.len(),
        {
            if root.get(self).is_some() {
                return Ok(());
            }
            let n = self.inner.len();
            self.inner.truncate(n - 1);
            if self.inner.len() == 0 {
                return Err(());
            }
            let last = self.inner[n - 2];
            if last == usize::MAX {
                return Err(());
            }
            self.inner.set(n - 2, last + 1);
        }
    }

    /// Moves to the next entry shown of the tree.
    pub fn next(&mut self, root: &FileTree) -> (r: Result<(), ()>)
        ensures
            (r is Ok) == advance(root.root, old(self).inner@.push(0)).0,
            final(self).inner@ == advance(root.root, old(self).inner@.push(0)).1,
    {
        self.push_0(&root.root)
    }

    /// Moves on `n` entries shown (see [`walk`]); where it runs out of
    /// entries, how many moves it made.
    pub fn get_on_nth_line(&mut self, n: usize, tree: &FileTree) -> (r: Result<(), usize>)
        ensures
            ({
                let w = walk(tree.root, old(self).inner@, n as nat);
                &&& final(self).inner@ == w.1
                &&& w.0 == n ==> r is Ok
                &&& w.0 < n ==> r == Err::<(), usize>(w.0 as usize)
            }),
    {
        let ghost w0 = walk(tree.root, self.inner@, n as nat);
        let mut left = n;
        loop
            invariant
                left <= n,
                w0 == walk(tree.root, old(self).inner@, n as nat),
                w0.0 == (n - left) + walk(tree.root, self.inner@, left as nat).0,
                w0.1 == walk(tree.root, self.inner@, left as nat).1,
            decreases left,
        {
            if left == 0 {
                return Ok(());
            }
            match self.push_0(&tree.root) {
                Ok(()) => {},
                Err(()) => {
                    return Err(n - left);
                },
            }
            left = left - 1;
        }
    }
}

/// The tree of files beside the text: its width, how far it is scrolled,
/// and its root directory.
pub struct FileTree {
    pub width: u16,
    pub scrollbar_y: usize,
    pub root: FileTreeNode,
}

impl FileTree {
    /// The tree of the directory at `path`, shown as `name`, unfolded (read
    /// through `list_dir`), twenty columns wide and not scrolled.
    pub fn new<F: FnOnce(&String) -> Vec<(String, String, bool)>>(path: String, name: String, list_dir: F) -> (r: FileTree)
        requires
            call_requires(list_dir, (&path,)),
        ensures
            r.width == 20,
            r.scrollbar_y == 0,
            exists|l: Vec<(String, String, bool)>| #![trigger call_ensures(list_dir, (&path,), l)]
                call_ensures(list_dir, (&path,), l) && read_into(FileTreeNode {
                    path,
                    name,
                    is_dir: true,
                    expanded: true,
                    dirty: true,
                    inode: None,
                    children: r.root.children,
                }, r.root, l@) && r.root.children@.len() == l@.len(),
    {
        let mut root = FileTreeNode::dir_from(path, name);
        root.expand(list_dir);
        FileTree { width: 20, scrollbar_y: 0, root }
    }
}

/// The mark of an open file that is modified.
pub const FILE_MODIFIED: char = '●';
/// The mark of an open file.
pub const FILE_LOADED: char = '○';

/// The mark of a file's state in the tree.
pub open spec fn state_char(s: OnlineState) -> char {
    match s {
        OnlineState::Nothing => ' ',
        OnlineState::Opened => FILE_LOADED,
        OnlineState::Modified => FILE_MODIFIED,
    }
}

/// Whether the file of inode `k` is open among the buffers `e`, and
/// modified (see [`Buffers::get_online_state`]).
pub open spec fn online_state(e: Seq<(Inode, Buffer)>, k: Inode) -> OnlineState {
    if !has_key(e, k) {
        OnlineState::Nothing
    } else if e[key_index(e, k)].1.modified {
        OnlineState::Modified
    } else {
        OnlineState::Opened
    }
}

/// The lines drawn before an entry at `p` from `n`: for each directory
/// above it, a bar where more entries follow in it, and a corner or a tee
/// before the entry itself, as it is its directory's last child or not.
pub open spec fn branch_marks(n: FileTreeNode, p: Seq<usize>) -> Seq<char>
    decreases p.len(),
{
    if p.len() == 0 {
        Seq::empty()
    } else if p.len() == 1 {
        if p[0] + 1 == n.children@.len() { "└─"@ } else { "├─"@ }
    } else {
        (if p[0] + 1 == n.children@.len() { "  "@ } else { "│ "@ }) + branch_marks(n.children@[p[0] as int], p.drop_first())
    }
}

/// The mark of a directory, unfolded or not; room for it before a file.
pub open spec fn fold_mark(n: FileTreeNode) -> Seq<char> {
    if n.is_dir {
        if n.expanded { "▼ "@ } else { "▶ "@ }
    } else {
        "  "@
    }
}

/// The line of the tree for the entry at `p` from `root`, whose file is in
/// the state `state`.
pub open spec fn tree_line(root: FileTreeNode, p: Seq<usize>, state: OnlineState) -> Seq<char> {
    let n = node_at(root, p)->0;
    seq![' ', state_char(state), ' '] + branch_marks(root, p) + fold_mark(n) + n.name@ + seq!['\n']
}

proof fn lemma_node_at_any(n: FileTreeNode, p: Seq<usize>)
    requires
        node_at(n, p) is Some,
    ensures
        node_at_any(n, p) == node_at(n, p),
    decreases p.len(),
{
    if p.len() > 0 {
        lemma_node_at_any(n.children@[p[0] as int], p.drop_first());
    }
}

proof fn lemma_updated(n: FileTreeNode, m: FileTreeNode, p: Seq<usize>, v: FileTreeNode)
    requires
        node_at(n, p) is Some,
        updated_at(n, m, p, v),
    ensures
        node_at(m, p) == Some(v),
        branch_marks(m, p) == branch_marks(n, p),
    decreases p.len(),
{
    if p.len() > 0 {
        lemma_updated(n.children@[p[0] as int], m.children@[p[0] as int], p.drop_first(), v);
    }
}

proof fn lemma_advance_valid(root: FileTreeNode, s: Seq<usize>)
    ensures
        advance(root, s).0 ==> node_at(root, advance(root, s).1) is Some,
        !advance(root, s).0 && advance(root, s).1.len() == 0 ==> node_at(root, advance(root, s).1) is Some,
    decreases s.len(),
{
    if node_at(root, s) is None && s.len() > 1 {
        let t = s.drop_last();
        if t.last() != usize::MAX {
            lemma_advance_valid(root, t.update(t.len() - 1, (t.last() + 1) as usize));
        }
    }
}

proof fn lemma_walk_valid(root: FileTreeNode, p: Seq<usize>, n: nat)
    requires
        node_at(root, p) is Some,
    ensures
        walk(root, p, n).0 == n ==> node_at(root, walk(root, p, n).1) is Some,
    decreases n,
{
    if n > 0 {
        let a = advance(root, p.push(0));
        lemma_advance_valid(root, p.push(0));
        if a.0 {
            lemma_walk_valid(root, a.1, (n - 1) as nat);
        }
    }
}

impl FileTreeNode {
    /// Appends to `s` the marks drawn before the entry at `ptr` (see
    /// [`branch_marks`]).
    fn push_marks(&self, ptr: &NodePointer, s: &mut String)
        requires
            node_at(*self, ptr.inner@) is Some,
        ensures
            final(s)@ == old(s)@ + branch_marks(*self, ptr.inner@),
    {
        let ghost p = ptr.inner@;
        let ghost head = s@;
        let n = ptr.inner.len();
        if n == 0 {
            assert(s@ =~= head + branch_marks(*self, p));
            return;
        }
        let mut parent: &FileTreeNode = self;
        let mut j: usize = 0;
        assert(p.skip(0) =~= p);
        while j < n - 1
            invariant
                n == p.len() >= 1,
                j <= n - 1,
                p == ptr.inner@,
                node_at(*parent, p.skip(j as int)) is Some,
                s@ + branch_marks(*parent, p.skip(j as int)) =~= head + branch_marks(*self, p),
            decreases n - 1 - j,
        {
            let i = ptr.inner[j];
            let ghost q = p.skip(j as int);
            assert(q[0] == i);
            assert(q.drop_first() =~= p.skip(j + 1));
            assert(i < parent.children@.len());
            if i == parent.children.len() - 1 {
                string_push_str(s, "  ");
            } else {
                string_push_str(s, "│ ");
            }
            parent = &parent.children[i];
            j = j + 1;
        }
        let ghost q = p.skip(j as int);
        assert(q =~= seq![p[j as int]]);
        assert(q[0] < parent.children@.len());
        if ptr.inner[n - 1] == parent.children.len() - 1 {
            string_push_str(s, "└─");
        } else {
            string_push_str(s, "├─");
        }
    }

    /// Appends to `s` the line of the tree (see [`tree_line`]) for the entry
    /// at `ptr`, shown from this root; the entry's inode is looked up with
    /// `lookup` where it is not known yet, and kept. Returns the column where
    /// the entry's colouring starts.
    pub fn r00t_push_string<F: FnOnce(&String) -> Inode>(&mut self, ptr: &NodePointer, s: &mut String, buffers: &Buffers, lookup: F) -> (r: usize)
        requires
            node_at(*old(self), ptr.inner@) is Some,
            keys_unique(buffers.entries()),
            ptr.inner@.len() <= (usize::MAX - 4) / 2,
            (node_at(*old(self), ptr.inner@)->0).inode is None ==> call_requires(lookup, (&(node_at(*old(self), ptr.inner@)->0).path,)),
        ensures
            r == 4 + 2 * ptr.inner@.len(),
            ({
                let m = node_at(*old(self), ptr.inner@)->0;
                exists|ino: Inode| #![trigger updated_at(*old(self), *final(self), ptr.inner@, FileTreeNode { inode: Some(ino), ..m })]
                    updated_at(*old(self), *final(self), ptr.inner@, FileTreeNode { inode: Some(ino), ..m })
                    && (m.inode matches Some(i) ==> ino == i)
                    && (m.inode is None ==> call_ensures(lookup, (&m.path,), ino))
                    && final(s)@ == old(s)@ + tree_line(*final(self), ptr.inner@, online_state(buffers.entries(), ino))
            }),
    {
        let ghost p = ptr.inner@;
        let ghost m = node_at(*self, p)->0;
        proof {
            lemma_node_at_any(*self, p);
        }
        string_push(s, ' ');
        let node = self.get_mut(ptr).unwrap();
        let inode = node.get_inode(lookup);
        let ghost v = FileTreeNode { inode: Some(inode), ..m };
        proof {
            lemma_updated(*old(self), *self, p, v);
        }
        let state = buffers.get_online_state(inode);
        let mark = match state {
            OnlineState::Nothing => ' ',
            OnlineState::Opened => FILE_LOADED,
            OnlineState::Modified => FILE_MODIFIED,
        };
        string_push(s, mark);
        string_push(s, ' ');
        self.push_marks(ptr, s);
        let node = self.get(ptr).unwrap();
        let fold = if node.is_dir {
            if node.expanded { "▼ " } else { "▶ " }
        } else {
            "  "
        };
        string_push_str(s, fold);
        string_push_str(s, node.name.as_str());
        string_push(s, '\n');
        assert(s@ =~= old(s)@ + tree_line(*self, p, online_state(buffers.entries(), inode)));
        assert(updated_at(*old(self), *self, p, v));
        4 + 2 * ptr.inner.len()
    }
}

/// The deepest entry whose line can be drawn (a deeper one would overflow).
pub open spec fn max_depth() -> int {
    (usize::MAX - 4) / 2
}

/// One row drawn: the entry at `p` in the tree `t0` gets the inode `ino`
/// (the one known, or the one `lookup` finds), giving the tree `t1`.
pub open spec fn row_step<F: Fn(&String) -> Inode>(t0: FileTreeNode, t1: FileTreeNode, p: Seq<usize>, ino: Inode, lookup: F) -> bool {
    let m = node_at(t0, p)->0;
    &&& node_at(t0, p) is Some
    &&& updated_at(t0, t1, p, FileTreeNode { inode: Some(ino), ..m })
    &&& m.inode matches Some(i) ==> ino == i
    &&& m.inode is None ==> call_ensures(lookup, (&m.path,), ino)
}

/// The lines of the rows drawn at the pointers `ps`, row `k` from the tree
/// `ts[k + 1]` with the inode `is[k]`, against the buffers `e`.
pub open spec fn rows_text(ts: Seq<FileTreeNode>, ps: Seq<Seq<usize>>, is: Seq<Inode>, e: Seq<(Inode, Buffer)>) -> Seq<char>
    decreases ps.len(),
{
    if ps.len() == 0 {
        Seq::empty()
    } else {
        rows_text(ts, ps.drop_last(), is.drop_last(), e)
            + tree_line(ts[ps.len() as int], ps.last(), online_state(e, is.last()))
    }
}

/// The rows drawn from the tree `root`, from the entry at `first` on, at
/// most `len` of them: row `k` is at the pointer `ps[k]`, changes the tree
/// `ts[k]` into `ts[k + 1]` (see [`row_step`]), and the next row is at the
/// next entry shown; the rows stop after `len`, at the last entry, or before
/// an entry too deep to draw.
pub open spec fn shown_rows<F: Fn(&String) -> Inode>(root: FileTreeNode, first: Seq<usize>, len: int, ts: Seq<FileTreeNode>,
    ps: Seq<Seq<usize>>, is: Seq<Inode>, lookup: F) -> bool {
    let m = ps.len() as int;
    &&& ts.len() == m + 1
    &&& is.len() == m
    &&& ts[0] == root
    &&& m <= len
    &&& m > 0 ==> ps[0] == first
    &&& forall|k: int| 0 <= k < m ==> row_step(ts[k], #[trigger] ts[k + 1], ps[k], is[k], lookup)
    &&& forall|k: int| 0 <= k < m ==> (#[trigger] ps[k]).len() <= max_depth()
    &&& forall|k: int| 0 < k < m ==> advance(ts[k], ps[k - 1].push(0)) == (true, #[trigger] ps[k])
    &&& m < len && m == 0 ==> first.len() > max_depth()
    &&& m < len && m > 0 ==> !advance(ts[m], ps[m - 1].push(0)).0 || advance(ts[m], ps[m - 1].push(0)).1.len() > max_depth()
}

/// The mouse events that the tree and its border react to.
#[derive(Debug, Clone, Copy, PartialEq, Eq, Structural)]
pub enum TreeMouse {
    LeftDown,
    LeftDrag,
    LeftUp,
    ScrollDown,
    ScrollUp,
    Other,
}

/// The colouring of the row of the entry at `p` in the tree `t`.
pub open spec fn row_color(t: FileTreeNode, p: Seq<usize>) -> (u16, ColoringProto) {
    (((4 + 2 * p.len()) as u16), if (node_at(t, p)->0).is_dir { ColoringProto::Dir } else { ColoringProto::File })
}

proof fn lemma_extend_rows<F: Fn(&String) -> Inode>(root: FileTreeNode, first: Seq<usize>, ts: Seq<FileTreeNode>,
    ps: Seq<Seq<usize>>, is: Seq<Inode>, lookup: F, t: FileTreeNode, p: Seq<usize>, ino: Inode)
    requires
        shown_rows(root, first, ps.len() as int, ts, ps, is, lookup),
        ps.len() == 0 ==> p == first,
        ps.len() > 0 ==> advance(ts[ps.len() as int], ps.last().push(0)) == (true, p),
        p.len() <= max_depth(),
        row_step(ts.last(), t, p, ino, lookup),
    ensures
        shown_rows(root, first, ps.len() + 1 as int, ts.push(t), ps.push(p), is.push(ino), lookup),
{
    let ts2 = ts.push(t);
    let ps2 = ps.push(p);
    let is2 = is.push(ino);
    let m = ps.len() as int;
    assert forall|k: int| 0 <= k < m + 1 implies row_step(ts2[k], #[trigger] ts2[k + 1], ps2[k], is2[k], lookup) by {
        if k < m {
            assert(ts2[k] == ts[k] && ts2[k + 1] == ts[k + 1] && ps2[k] == ps[k] && is2[k] == is[k]);
        }
    }
    assert forall|k: int| 0 < k < m + 1 implies advance(ts2[k], ps2[k - 1].push(0)) == (true, #[trigger] ps2[k]) by {
        if k < m {
            assert(ts2[k] == ts[k] && ps2[k] == ps[k] && ps2[k - 1] == ps[k - 1]);
        }
    }
    assert forall|k: int| 0 <= k < m + 1 implies (#[trigger] ps2[k]).len() <= max_depth() by {
        if k < m {
            assert(ps2[k] == ps[k]);
        }
    }
}

proof fn lemma_rows_stop<F: Fn(&String) -> Inode>(root: FileTreeNode, first: Seq<usize>, len: int, ts: Seq<FileTreeNode>,
    ps: Seq<Seq<usize>>, is: Seq<Inode>, lookup: F)
    requires
        shown_rows(root, first, ps.len() as int, ts, ps, is, lookup),
        ps.len() <= len,
        ps.len() < len && ps.len() == 0 ==> first.len() > max_depth(),
        ps.len() < len && ps.len() > 0 ==> !advance(ts[ps.len() as int], ps.last().push(0)).0
            || advance(ts[ps.len() as int], ps.last().push(0)).1.len() > max_depth(),
    ensures
        shown_rows(root, first, len, ts, ps, is, lookup),
{
}

impl FileTree {
    /// Draws the row of the entry at `ptr`: its line goes onto `text`, its
    /// colouring onto `colors`.
    fn draw_row<F: Fn(&String) -> Inode>(&mut self, ptr: &NodePointer, text: &mut String, colors: &mut Vec<(u16, ColoringProto)>,
        buffers: &Buffers, lookup: &F) -> (ino: Ghost<Inode>)
        requires
            node_at(old(self).root, ptr.inner@) is Some,
            ptr.inner@.len() <= max_depth(),
            keys_unique(buffers.entries()),
            forall|p: &String| call_requires(*lookup, (p,)),
        ensures
            row_step(old(self).root, final(self).root, ptr.inner@, ino@, *lookup),
            final(text)@ == old(text)@ + tree_line(final(self).root, ptr.inner@, online_state(buffers.entries(), ino@)),
            final(colors)@ == old(colors)@.push(row_color(final(self).root, ptr.inner@)),
            node_at(final(self).root, ptr.inner@) is Some,
            final(self).width == old(self).width,
            final(self).scrollbar_y == old(self).scrollbar_y,
    {
        let ghost t0 = self.root;
        let ghost p = ptr.inner@;
        let ghost m = node_at(t0, p)->0;
        let x = self.root.r00t_push_string(ptr, text, buffers, lookup);
        let ghost ino = choose|ino: Inode| #![trigger updated_at(t0, self.root, p, FileTreeNode { inode: Some(ino), ..m })]
            updated_at(t0, self.root, p, FileTreeNode { inode: Some(ino), ..m })
            && (m.inode matches Some(i) ==> ino == i)
            && (m.inode is None ==> call_ensures(*lookup, (&m.path,), ino))
            && text@ == old(text)@ + tree_line(self.root, p, online_state(buffers.entries(), ino));
        proof {
            lemma_updated(t0, self.root, p, FileTreeNode { inode: Some(ino), ..m });
        }
        let proto = self.root.get(ptr).unwrap().get_coloring_proto();
        colors.push(((x as u16), proto));
        Ghost(ino)
    }

    /// The text of the rows of the tree from row `start` on, at most `len` of
    /// them (see [`shown_rows`]), and where each row's colouring starts (cut to
    /// 16 bits) and how it is coloured; nothing where the tree has fewer rows.
    /// Inodes not known yet are looked up with `lookup`.
    #[verifier::rlimit(50)]
    pub fn get_all_texts_from_len<F: Fn(&String) -> Inode>(&mut self, start: usize, len: u16, buffers: &Buffers, lookup: F)
        -> (r: (String, Vec<(u16, ColoringProto)>))
        requires
            keys_unique(buffers.entries()),
            forall|p: &String| call_requires(lookup, (p,)),
        ensures
            final(self).width == old(self).width,
            final(self).scrollbar_y == old(self).scrollbar_y,
            ({
                let w = walk(old(self).root, Seq::empty(), start as nat);
                &&& w.0 < start ==> r.0@.len() == 0 && r.1@.len() == 0 && *final(self) == *old(self)
                &&& w.0 == start ==> exists|ts: Seq<FileTreeNode>, ps: Seq<Seq<usize>>, is: Seq<Inode>|
                    #![trigger shown_rows(old(self).root, walk(old(self).root, Seq::empty(), start as nat).1, len as int, ts, ps, is, lookup)]
                    shown_rows(old(self).root, w.1, len as int, ts, ps, is, lookup)
                    && final(self).root == ts.last()
                    && r.0@ == rows_text(ts, ps, is, buffers.entries())
                    && r.1@.len() == ps.len()
                    && forall|k: int| 0 <= k < ps.len() ==> #[trigger] r.1@[k] == row_color(ts[k + 1], ps[k])
            }),
    {
        let mut ptr = NodePointer::new();
        let mut text = String::new();
        let mut colors: Vec<(u16, ColoringProto)> = Vec::new();
        let ghost root0 = self.root;
        proof {
            lemma_walk_bound(root0, Seq::empty(), start as nat);
            assert(text@ =~= Seq::<char>::empty());
            assert(ptr.inner@ =~= Seq::<usize>::empty());
        }
        if ptr.get_on_nth_line(start, self).is_err() {
            return (text, colors);
        }
        let ghost first = ptr.inner@;
        proof {
            lemma_walk_valid(root0, Seq::empty(), start as nat);
        }
        let ghost mut ts: Seq<FileTreeNode> = seq![self.root];
        let ghost mut ps: Seq<Seq<usize>> = Seq::empty();
        let ghost mut is: Seq<Inode> = Seq::empty();
        let mut row: u16 = 0;
        while row < len
            invariant
                root0 == old(self).root,
                first == walk(root0, Seq::empty(), start as nat).1,
                walk(root0, Seq::empty(), start as nat).0 == start,
                keys_unique(buffers.entries()),
                forall|p: &String| call_requires(lookup, (p,)),
                self.width == old(self).width,
                self.scrollbar_y == old(self).scrollbar_y,
                row <= len,
                ps.len() == row,
                ts.len() == row + 1,
                ts.last() == self.root,
                node_at(self.root, ptr.inner@) is Some,
                row == 0 ==> ptr.inner@ == first,
                row > 0 ==> advance(ts[row as int], ps.last().push(0)) == (true, ptr.inner@),
                shown_rows(root0, first, row as int, ts, ps, is, lookup),
                text@ == rows_text(ts, ps, is, buffers.entries()),
                colors@.len() == row,
                forall|k: int| 0 <= k < row ==> #[trigger] colors@[k] == row_color(ts[k + 1], ps[k]),
            decreases len - row,
        {
            if ptr.inner.len() > (usize::MAX - 4) / 2 {
                proof {
                    lemma_rows_stop(root0, first, len as int, ts, ps, is, lookup);
                }
                return (text, colors);
            }
            let ghost t0 = self.root;
            let ghost ts0 = ts;
            let ghost ps0 = ps;
            let ghost is0 = is;
            let ghost c0 = colors@;
            let ino = self.draw_row(&ptr, &mut text, &mut colors, buffers, &lookup);
            proof {
                lemma_extend_rows(root0, first, ts, ps, is, lookup, self.root, ptr.inner@, ino@);
                ts = ts.push(self.root);
                ps = ps.push(ptr.inner@);
                is = is.push(ino@);
                assert(ps.drop_last() =~= ps0);
                assert(is.drop_last() =~= is0);
                lemma_rows_text_prefix(ts0, ts, ps0, is0, buffers.entries());
                assert forall|k: int| 0 <= k < row + 1 implies #[trigger] colors@[k] == row_color(ts[k + 1], ps[k]) by {
                    if k < row {
                        assert(colors@[k] == c0[k]);
                        assert(ts[k + 1] == ts0[k + 1] && ps[k] == ps0[k]);
                    }
                }
            }
            let ghost pk = ptr.inner@;
            let next = ptr.next(self);
            proof {
                lemma_advance_valid(self.root, pk.push(0));
            }
            if next.is_err() {
                proof {
                    lemma_rows_stop(root0, first, len as int, ts, ps, is, lookup);
                }
                return (text, colors);
            }
            row = row + 1;
        }
        (text, colors)
    }
}

proof fn lemma_walk_bound(root: FileTreeNode, p: Seq<usize>, n: nat)
    ensures
        walk(root, p, n).0 <= n,
    decreases n,
{
    if n > 0 {
        let a = advance(root, p.push(0));
        if a.0 {
            lemma_walk_bound(root, a.1, (n - 1) as nat);
        }
    }
}

/// Rows text depends only on the trees it reads.
proof fn lemma_rows_text_prefix(ts0: Seq<FileTreeNode>, ts: Seq<FileTreeNode>, ps: Seq<Seq<usize>>, is: Seq<Inode>, e: Seq<(Inode, Buffer)>)
    requires
        ts0.len() == ps.len() + 1,
        ts.len() >= ts0.len(),
        forall|k: int| 0 <= k < ts0.len() ==> ts[k] == ts0[k],
    ensures
        rows_text(ts, ps, is, e) == rows_text(ts0, ps, is, e),
    decreases ps.len(),
{
    if ps.len() > 0 {
        let ts1 = ts0.drop_last();
        assert forall|k: int| 0 <= k < ts1.len() implies ts[k] == ts1[k] by {}
        lemma_rows_text_prefix(ts1, ts, ps.drop_last(), is.drop_last(), e);
        lemma_rows_text_prefix(ts1, ts0, ps.drop_last(), is.drop_last(), e);
    }
}

/// `v` is the entry `m` after a click on it (see
/// [`FileTreeNode::handle_single_click`]): a file stays as it is; a
/// directory folds, or unfolds, read through `list_dir` where it was not
/// read yet.
pub open spec fn clicked_entry<F: FnOnce(&String) -> Vec<(String, String, bool)>>(m: FileTreeNode, v: FileTreeNode, list_dir: F) -> bool {
    &&& !m.is_dir ==> v == m
    &&& m.is_dir && m.expanded ==> v == (FileTreeNode { expanded: false, ..m })
    &&& m.is_dir && !m.expanded && !m.dirty ==> v == (FileTreeNode { expanded: true, ..m })
    &&& m.is_dir && !m.expanded && m.dirty ==> exists|l: Vec<(String, String, bool)>| #![trigger call_ensures(list_dir, (&m.path,), l)]
        call_ensures(list_dir, (&m.path,), l) && read_into(FileTreeNode { expanded: true, ..m }, v, l@)
}

impl FileTree {
    /// A mouse event on the tree: a left click on row `row` of the view
    /// clicks the entry shown there (see [`clicked_entry`]) and returns the
    /// path of a file to open; the wheel scrolls five rows, down at most to
    /// ten rows past the last entry in a view `last_tree_height` rows high.
    pub fn handle_event<F: FnOnce(&String) -> Vec<(String, String, bool)>>(&mut self, kind: TreeMouse, row: u16,
        last_tree_height: u16, list_dir: F) -> (r: Option<String>)
        requires
            kind == TreeMouse::LeftDown ==> row + old(self).scrollbar_y <= usize::MAX,
            kind == TreeMouse::ScrollDown ==> old(self).scrollbar_y + 5 + last_tree_height <= usize::MAX,
            forall|p: &String| call_requires(list_dir, (p,)),
        ensures
            final(self).width == old(self).width,
            kind == TreeMouse::LeftDown ==> ({
                let w = walk(old(self).root, Seq::empty(), (row + old(self).scrollbar_y) as nat);
                let m = node_at(old(self).root, w.1)->0;
                &&& final(self).scrollbar_y == old(self).scrollbar_y
                &&& w.0 < row + old(self).scrollbar_y ==> r is None && *final(self) == *old(self)
                &&& w.0 == row + old(self).scrollbar_y ==> r == (if m.is_dir { None } else { Some(m.path) })
                    && exists|v: FileTreeNode| #![trigger updated_at(old(self).root, final(self).root, walk(old(self).root, Seq::empty(), (row + old(self).scrollbar_y) as nat).1, v)]
                        updated_at(old(self).root, final(self).root, w.1, v) && clicked_entry(m, v, list_dir)
            }),
            kind == TreeMouse::ScrollDown ==> ({
                let w = walk(old(self).root, Seq::empty(), usize::MAX as nat);
                let y1 = old(self).scrollbar_y + 5;
                let h = last_tree_height as int;
                &&& r is None
                &&& final(self).root == old(self).root
                &&& final(self).scrollbar_y == (if w.0 < usize::MAX && w.0 + 10 <= usize::MAX && w.0 + 10 < y1 + h {
                    if w.0 + 10 >= h { w.0 + 10 - h } else { 0 }
                } else {
                    y1
                })
            }),
            kind == TreeMouse::ScrollUp ==> r is None && final(self).root == old(self).root
                && final(self).scrollbar_y == (if old(self).scrollbar_y >= 5 { old(self).scrollbar_y - 5 } else { 0 }),
            kind != TreeMouse::LeftDown && kind != TreeMouse::ScrollDown && kind != TreeMouse::ScrollUp
                ==> r is None && *final(self) == *old(self),
    {
        match kind {
            TreeMouse::LeftDown => {},
            TreeMouse::ScrollDown => {
                self.scrollbar_y = self.scrollbar_y + 5;
                let mut ptr = NodePointer::new();
                assert(ptr.inner@ =~= Seq::<usize>::empty());
                proof {
                    lemma_walk_bound(self.root, Seq::empty(), usize::MAX as nat);
                }
                let lines_n = match ptr.get_on_nth_line(usize::MAX, self) {
                    Err(k) => k,
                    Ok(()) => {
                        return None;
                    },
                };
                let h = last_tree_height as usize;
                if lines_n <= usize::MAX - 10 && lines_n + 10 < self.scrollbar_y + h {
                    self.scrollbar_y = (lines_n + 10).saturating_sub(h);
                }
                return None;
            },
            TreeMouse::ScrollUp => {
                self.scrollbar_y = self.scrollbar_y.saturating_sub(5);
                return None;
            },
            _ => {
                return None;
            },
        }
        let mut pointer = NodePointer::new();
        assert(pointer.inner@ =~= Seq::<usize>::empty());
        let n = row as usize + self.scrollbar_y;
        proof {
            lemma_walk_bound(self.root, Seq::empty(), n as nat);
            lemma_walk_valid(self.root, Seq::empty(), n as nat);
        }
        if pointer.get_on_nth_line(n, self).is_err() {
            return None;
        }
        proof {
            lemma_node_at_any(self.root, pointer.inner@);
        }
        let a = self.root.get_mut(&pointer).unwrap();
        a.handle_single_click(list_dir)
    }

    /// A mouse event on the tree's border: pressing starts a drag of it
    /// (`next_is_separator`), releasing ends it, and pressing or dragging
    /// moves it to column `column`.
    pub fn handle_separator_event(&mut self, kind: TreeMouse, column: u16, next_is_separator: &mut bool)
        ensures
            final(self).root == old(self).root,
            final(self).scrollbar_y == old(self).scrollbar_y,
            kind == TreeMouse::LeftDown ==> *final(next_is_separator) && final(self).width == column,
            kind == TreeMouse::LeftDrag ==> *final(next_is_separator) == *old(next_is_separator) && final(self).width == column,
            kind == TreeMouse::LeftUp ==> !*final(next_is_separator) && final(self).width == old(self).width,
            kind != TreeMouse::LeftDown && kind != TreeMouse::LeftDrag && kind != TreeMouse::LeftUp
                ==> *final(next_is_separator) == *old(next_is_separator) && final(self).width == old(self).width,
    {
        match kind {
            TreeMouse::LeftDown => {
                *next_is_separator = true;
            },
            TreeMouse::LeftDrag => {},
            TreeMouse::LeftUp => {
                *next_is_separator = false;
                return;
            },
            _ => {
                return;
            },
        }
        self.width = column;
    }
}

/// Counting rows lands on a row shown: where moving on `n` entries from
/// the root succeeds, the pointer leads to an entry shown.
pub proof fn counted_rows_are_shown(root: FileTreeNode, n: nat)
    ensures
        walk(root, Seq::empty(), n).0 <= n,
        walk(root, Seq::empty(), n).0 == n ==> node_at(root, walk(root, Seq::empty(), n).1) is Some,
{
    lemma_walk_bound(root, Seq::empty(), n);
    lemma_walk_valid(root, Seq::empty(), n);
}

} // verus!
