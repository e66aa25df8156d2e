//! The filesystem's state: the inode table, the names of inodes, the
//! sessions' writable roots, and the counters that hand out inodes and file
//! handles.

use crate::attr::{fresh_attr, make_attribute, Attr};
use crate::node::{child_of, links_view, lookup_link, ChildLink, InodeContent, InodeView, Node, NodeView};
use std::collections::HashMap;
use std::path::PathBuf;
use std::time::SystemTime;
use vstd::prelude::*;

verus! {

broadcast use vstd::std_specs::hash::group_hash_axioms;

/// `std::path::PathBuf`, which vstd leaves undeclared; the mounted path is
/// kept as an opaque value.
#[verifier::external_type_specification]
#[verifier::external_body]
pub struct ExPathBuf(PathBuf);

/// The error that a request is answered with.
#[derive(Clone, Copy, Debug, PartialEq, Eq, Structural)]
pub enum FsError {
    /// The name does not exist (`ENOENT`).
    NotFound,
    /// The name exists already (`EEXIST`).
    AlreadyExists,
}

/// The filesystem. The read-only layer is rooted at inode 1; each session
/// (a terminal) has a writable root of its own, recorded in
/// `session_id_mapping`, whose directories are linked to the read-only
/// directories they shadow by `writable_to_readable_inode`.
pub struct UnionFs {
    pub primary_pathname: PathBuf,
    pub session_id_mapping: HashMap<i32, u64>,
    pub inode_to_content_mapping: HashMap<u64, InodeContent>,
    pub inode_to_string_mapping: HashMap<u64, String>,
    pub curr_inode_val: u64,
    pub writable_to_readable_inode: HashMap<u64, Option<u64>>,
    pub curr_file_handle: u64,
}

/// The filesystem as the specifications see it.
pub struct FsView {
    pub nodes: Map<u64, InodeView>,
    pub names: Map<u64, Seq<char>>,
    pub sessions: Map<i32, u64>,
    pub w2r: Map<u64, Option<u64>>,
    pub cur_inode: u64,
    pub cur_fh: u64,
}

impl View for UnionFs {
    type V = FsView;

    open spec fn view(&self) -> FsView {
        FsView {
            nodes: self.inode_to_content_mapping@.map_values(|c: InodeContent| c@),
            names: self.inode_to_string_mapping@.map_values(|s: String| s@),
            sessions: self.session_id_mapping@,
            w2r: self.writable_to_readable_inode@,
            cur_inode: self.curr_inode_val,
            cur_fh: self.curr_file_handle,
        }
    }
}

/// The name given to every root directory.
pub open spec fn root_name() -> Seq<char> {
    seq!['/']
}

/// The state of a new filesystem: an empty read-only root, named "/", at
/// inode 1, and no sessions.
pub open spec fn initial_view(now: SystemTime) -> FsView {
    FsView {
        nodes: map![1u64 => InodeView {
            attr: fresh_attr(1, true, now),
            node: NodeView::Directory {
                children: Seq::empty(),
                writable_parent: Map::empty(),
                readable: true,
                writable: false,
            },
        }],
        names: map![1u64 => root_name()],
        sessions: Map::empty(),
        w2r: Map::empty(),
        cur_inode: 1,
        cur_fh: 0,
    }
}

impl FsView {
    /// `ino` is a directory.
    pub open spec fn is_dir_at(self, ino: u64) -> bool {
        self.nodes.contains_key(ino) && self.nodes[ino].node.is_dir()
    }

    /// `ino` is a regular file.
    pub open spec fn is_file_at(self, ino: u64) -> bool {
        self.nodes.contains_key(ino) && !self.nodes[ino].node.is_dir()
    }

    /// The entries of directory `ino`.
    pub open spec fn children_at(self, ino: u64) -> Seq<(Seq<char>, u64)> {
        self.nodes[ino].node.children()
    }

    /// The state with inode `ino` replaced by (or added as) `node`.
    pub open spec fn with_node(self, ino: u64, node: InodeView) -> FsView {
        FsView { nodes: self.nodes.insert(ino, node), ..self }
    }

    /// The state without inode `ino`.
    pub open spec fn without_node(self, ino: u64) -> FsView {
        FsView { nodes: self.nodes.remove(ino), ..self }
    }

    /// The state with the contents of inode `ino` replaced by `node`.
    pub open spec fn with_node_kind(self, ino: u64, node: NodeView) -> FsView {
        self.with_node(ino, InodeView { attr: self.nodes[ino].attr, node })
    }

    /// The state where `name` in directory `dir` names `inode`.
    pub open spec fn with_child(self, dir: u64, name: Seq<char>, inode: u64) -> FsView {
        self.with_node_kind(dir, self.nodes[dir].node.with_child(name, inode))
    }

    /// The state where inode `ino` records `parent` as session `ses`'s
    /// writable parent.
    pub open spec fn with_writable_parent(self, ino: u64, ses: i32, parent: u64) -> FsView {
        self.with_node_kind(ino, self.nodes[ino].node.with_writable_parent(ses, parent))
    }

    /// The state where file `ino` holds `content`.
    pub open spec fn with_content(self, ino: u64, content: Seq<u8>) -> FsView {
        self.with_node_kind(ino, self.nodes[ino].node.with_content(content))
    }

    /// The state where inode `ino` is called `name`.
    pub open spec fn with_name(self, ino: u64, name: Seq<char>) -> FsView {
        FsView { names: self.names.insert(ino, name), ..self }
    }

    /// The state where inode `ino` has no name.
    pub open spec fn without_name(self, ino: u64) -> FsView {
        FsView { names: self.names.remove(ino), ..self }
    }

    /// The state where writable inode `ino` shadows `readable`.
    pub open spec fn with_shadow(self, ino: u64, readable: Option<u64>) -> FsView {
        FsView { w2r: self.w2r.insert(ino, readable), ..self }
    }

    /// The state where session `ses` has the writable root `root`.
    pub open spec fn with_session(self, ses: i32, root: u64) -> FsView {
        FsView { sessions: self.sessions.insert(ses, root), ..self }
    }

    /// The state after the inode counter moved on by one.
    pub open spec fn bumped(self) -> FsView {
        FsView { cur_inode: (self.cur_inode + 1) as u64, ..self }
    }

    /// The inode `ino` in the directory `dir`, as the inode table holds it:
    /// `None` where `dir` does not exist.
    pub open spec fn child_in(self, dir: u64, name: Seq<char>) -> Option<u64> {
        if self.nodes.contains_key(dir) {
            crate::node::child_of(self.children_at(dir), name)
        } else {
            None
        }
    }
}

/// Moves the inode counter on by one.
pub fn increment_global_inode_val(val: &mut u64)
    requires
        *old(val) < u64::MAX,
    ensures
        *final(val) == *old(val) + 1,
{
    *val += 1
}

/// Moves the file-handle counter on by one.
pub fn increment_global_file_handle(val: &mut u64)
    requires
        *old(val) < u64::MAX,
    ensures
        *final(val) == *old(val) + 1,
{
    *val += 1
}

impl UnionFs {
    /// A filesystem for the tree at `primary_pathname`, holding only the empty
    /// read-only root; its attributes are stamped with `now`.
    pub fn new(primary_pathname: PathBuf, now: SystemTime) -> (res: UnionFs)
        ensures
            res@ == initial_view(now),
            res.primary_pathname == primary_pathname,
    {
        let root_attr = make_attribute(1, true, now);
        let root = InodeContent {
            inode_attributes: root_attr,
            node_kind: Node::Directory {
                hash_of_children: Vec::new(),
                writable_parent_instance: HashMap::new(),
                is_this_in_readable_path: true,
                is_this_in_writable_path: false,
            },
        };
        let mut primary_mapping: HashMap<u64, InodeContent> = HashMap::new();
        primary_mapping.insert(1, root);
        let mut secondary_mapping: HashMap<u64, String> = HashMap::new();
        let root_name_string = String::from_str("/");
        proof {
            reveal_strlit("/");
            assert(root_name_string@ =~= root_name());
        }
        secondary_mapping.insert(1, root_name_string);
        let res = UnionFs {
            primary_pathname,
            inode_to_content_mapping: primary_mapping,
            inode_to_string_mapping: secondary_mapping,
            session_id_mapping: HashMap::new(),
            curr_inode_val: 1,
            writable_to_readable_inode: HashMap::new(),
            curr_file_handle: 0,
        };
        proof {
            let v = res@;
            let i = initial_view(now);
            assert(links_view(Seq::<ChildLink>::empty()) =~= Seq::empty());
            assert(v.nodes =~= i.nodes);
            assert(v.names =~= i.names);
            assert(v.sessions =~= i.sessions);
            assert(v.w2r =~= i.w2r);
        }
        res
    }

    /// The attributes of inode `ino`, if it exists.
    pub fn getattr(&self, ino: u64) -> (res: Option<Attr>)
        ensures
            res == if self@.nodes.contains_key(ino) {
                Some(self@.nodes[ino].attr)
            } else {
                None
            },
    {
        match self.inode_to_content_mapping.get(&ino) {
            Some(content) => Some(content.inode_attributes),
            None => None,
        }
    }

    /// The attributes reported after a change of attributes: those of a new
    /// regular file at `ino`, stamped with `now`. Nothing is stored.
    pub fn setattr(&self, ino: u64, now: SystemTime) -> (res: Attr)
        ensures
            res == fresh_attr(ino, false, now),
    {
        make_attribute(ino, false, now)
    }

    /// Opens inode `ino`: a new file handle, one past the last.
    pub fn open(&mut self, ino: u64) -> (res: u64)
        requires
            old(self)@.cur_fh < u64::MAX,
        ensures
            res == old(self)@.cur_fh + 1,
            final(self)@ == (FsView { cur_fh: res, ..old(self)@ }),
    {
        increment_global_file_handle(&mut self.curr_file_handle);
        self.curr_file_handle
    }

    /// The bytes of file `ino` from `offset` on.
    pub fn read(&self, ino: u64, offset: u64) -> (res: Vec<u8>)
        requires
            self@.is_file_at(ino),
            offset <= self@.nodes[ino].node.content().len(),
        ensures
            res@ == self@.nodes[ino].node.content().skip(offset as int),
    {
        let node = &self.inode_to_content_mapping.get(&ino).unwrap().node_kind;
        let mut content = crate::node::copy_bytes(node.get_file_content().unwrap());
        let len = content.len();
        assert(offset <= len);
        let buffer = content.split_off(offset as usize);
        assert(buffer@ =~= self@.nodes[ino].node.content().skip(offset as int));
        buffer
    }
}


impl UnionFs {
    /// Inode `ino`, if it exists.
    pub(crate) fn node_ref(&self, ino: u64) -> (res: Option<&InodeContent>)
        ensures
            match res {
                Some(c) => self@.nodes.contains_key(ino) && c@ == self@.nodes[ino],
                None => !self@.nodes.contains_key(ino),
            },
    {
        self.inode_to_content_mapping.get(&ino)
    }

    /// The inode that `name` names in directory `dir`.
    pub(crate) fn dir_child(&self, dir: u64, name: &String) -> (res: Option<u64>)
        requires
            self@.is_dir_at(dir),
        ensures
            res == child_of(self@.children_at(dir), name@),
    {
        let c = self.inode_to_content_mapping.get(&dir).unwrap();
        lookup_link(c.node_kind.children_of_directory().unwrap(), name)
    }

    /// Adds or replaces inode `ino`.
    pub(crate) fn put_node(&mut self, ino: u64, content: InodeContent)
        ensures
            final(self)@ == old(self)@.with_node(ino, content@),
    {
        let ghost c = content@;
        self.inode_to_content_mapping.insert(ino, content);
        assert(self@.nodes =~= old(self)@.nodes.insert(ino, c));
    }

    /// Removes inode `ino`; whether it existed.
    pub(crate) fn drop_node(&mut self, ino: u64) -> (existed: bool)
        ensures
            final(self)@ == old(self)@.without_node(ino),
            existed == old(self)@.nodes.contains_key(ino),
    {
        let r = self.inode_to_content_mapping.remove(&ino);
        assert(self@.nodes =~= old(self)@.nodes.remove(ino));
        r.is_some()
    }

    /// Takes inode `ino` out of the table.
    fn take_node(&mut self, ino: u64) -> (res: InodeContent)
        requires
            old(self)@.nodes.contains_key(ino),
        ensures
            final(self)@ == old(self)@.without_node(ino),
            res@ == old(self)@.nodes[ino],
    {
        let r = self.inode_to_content_mapping.remove(&ino);
        assert(self@.nodes =~= old(self)@.nodes.remove(ino));
        r.unwrap()
    }

    /// Makes `name` name `inode` in directory `dir`.
    pub(crate) fn set_dir_child(&mut self, dir: u64, name: String, inode: u64)
        requires
            old(self)@.is_dir_at(dir),
        ensures
            final(self)@ == old(self)@.with_child(dir, name@, inode),
    {
        let c = self.take_node(dir);
        let InodeContent { inode_attributes, node_kind } = c;
        let node_kind = node_kind.with_link(name, inode);
        self.put_node(dir, InodeContent { inode_attributes, node_kind });
        assert(self@.nodes =~= old(self)@.with_child(dir, name@, inode).nodes);
    }

    /// Records `parent` as session `ses`'s writable parent of inode `ino`.
    pub(crate) fn set_writable_parent(&mut self, ino: u64, ses: i32, parent: u64)
        requires
            old(self)@.nodes.contains_key(ino),
        ensures
            final(self)@ == old(self)@.with_writable_parent(ino, ses, parent),
    {
        let c = self.take_node(ino);
        let InodeContent { inode_attributes, node_kind } = c;
        let node_kind = node_kind.with_parent(ses, parent);
        self.put_node(ino, InodeContent { inode_attributes, node_kind });
        assert(self@.nodes =~= old(self)@.with_writable_parent(ino, ses, parent).nodes);
    }

    /// Replaces the bytes of file `ino`.
    pub(crate) fn set_content(&mut self, ino: u64, content: Vec<u8>)
        requires
            old(self)@.nodes.contains_key(ino),
        ensures
            final(self)@ == old(self)@.with_content(ino, content@),
    {
        let ghost bytes = content@;
        let c = self.take_node(ino);
        let InodeContent { inode_attributes, node_kind } = c;
        let node_kind = node_kind.with_bytes(content);
        self.put_node(ino, InodeContent { inode_attributes, node_kind });
        assert(self@.nodes =~= old(self)@.with_content(ino, bytes).nodes);
    }

    /// The name of inode `ino`, if it has one.
    pub(crate) fn name_of(&self, ino: u64) -> (res: Option<String>)
        ensures
            match res {
                Some(n) => self@.names.contains_key(ino) && n@ == self@.names[ino],
                None => !self@.names.contains_key(ino),
            },
    {
        match self.inode_to_string_mapping.get(&ino) {
            Some(n) => Some(n.clone()),
            None => None,
        }
    }

    /// Names inode `ino`.
    pub(crate) fn put_name(&mut self, ino: u64, name: String)
        ensures
            final(self)@ == old(self)@.with_name(ino, name@),
    {
        let ghost n = name@;
        self.inode_to_string_mapping.insert(ino, name);
        assert(self@.names =~= old(self)@.names.insert(ino, n));
    }

    /// Forgets the name of inode `ino`; whether it had one.
    pub(crate) fn drop_name(&mut self, ino: u64) -> (existed: bool)
        ensures
            final(self)@ == old(self)@.without_name(ino),
            existed == old(self)@.names.contains_key(ino),
    {
        let r = self.inode_to_string_mapping.remove(&ino);
        assert(self@.names =~= old(self)@.names.remove(ino));
        r.is_some()
    }

    /// Records that writable inode `ino` shadows `readable`.
    pub(crate) fn put_shadow(&mut self, ino: u64, readable: Option<u64>)
        ensures
            final(self)@ == old(self)@.with_shadow(ino, readable),
    {
        self.writable_to_readable_inode.insert(ino, readable);
    }

    /// The next inode number, which becomes the last one handed out.
    pub(crate) fn alloc_inode(&mut self) -> (res: u64)
        requires
            old(self)@.cur_inode < u64::MAX,
        ensures
            final(self)@ == old(self)@.bumped(),
            res == final(self)@.cur_inode,
    {
        increment_global_inode_val(&mut self.curr_inode_val);
        self.curr_inode_val
    }
}

} // verus!
