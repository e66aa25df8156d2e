//! Inodes: directories with their named children, and regular files with
//! their bytes.

use crate::attr::{Attr, FileKind};
use std::collections::HashMap;
use vstd::prelude::*;

verus! {

broadcast use vstd::std_specs::hash::group_hash_axioms;

/// One entry of a directory: a name and the inode it names. The inode 0
/// names nothing: it marks a name as deleted in a writable layer.
pub struct ChildLink {
    pub name: String,
    pub inode: u64,
}

/// A directory's entries as the specifications see them, in order.
pub open spec fn links_view(links: Seq<ChildLink>) -> Seq<(Seq<char>, u64)> {
    links.map_values(|l: ChildLink| (l.name@, l.inode))
}

/// `i` is the first position at which `name` appears among `kids`.
pub open spec fn is_first(kids: Seq<(Seq<char>, u64)>, name: Seq<char>, i: int) -> bool {
    &&& 0 <= i < kids.len()
    &&& kids[i].0 == name
    &&& forall|j: int| 0 <= j < i ==> kids[j].0 != name
}

/// The position of `name` among `kids`, if it is there.
pub open spec fn name_pos(kids: Seq<(Seq<char>, u64)>, name: Seq<char>) -> Option<int> {
    if exists|i: int| is_first(kids, name, i) {
        Some(choose|i: int| is_first(kids, name, i))
    } else {
        None
    }
}

/// The inode that `name` names among `kids`, if any.
pub open spec fn child_of(kids: Seq<(Seq<char>, u64)>, name: Seq<char>) -> Option<u64> {
    match name_pos(kids, name) {
        Some(i) => Some(kids[i].1),
        None => None,
    }
}

/// `kids` after `name` is made to name `inode`: the entry is overwritten
/// where the name already stands, appended otherwise.
pub open spec fn set_child(kids: Seq<(Seq<char>, u64)>, name: Seq<char>, inode: u64) -> Seq<
    (Seq<char>, u64),
> {
    match name_pos(kids, name) {
        Some(i) => kids.update(i, (name, inode)),
        None => kids.push((name, inode)),
    }
}

/// The first position is unique.
pub proof fn lemma_first_unique(kids: Seq<(Seq<char>, u64)>, name: Seq<char>, i: int)
    requires
        is_first(kids, name, i),
    ensures
        name_pos(kids, name) == Some(i),
{
    let k = choose|k: int| is_first(kids, name, k);
    assert(is_first(kids, name, k));
    if k < i {
        assert(kids[k].0 != name);
    } else if k > i {
        assert(kids[i].0 != name);
    }
}

/// Where `name` stands somewhere, it has a first position.
pub proof fn lemma_has_first(kids: Seq<(Seq<char>, u64)>, name: Seq<char>, j: int)
    requires
        0 <= j < kids.len(),
        kids[j].0 == name,
    ensures
        name_pos(kids, name) is Some,
    decreases j,
{
    if exists|k: int| 0 <= k < j && kids[k].0 == name {
        let k = choose|k: int| 0 <= k < j && kids[k].0 == name;
        lemma_has_first(kids, name, k);
    } else {
        lemma_first_unique(kids, name, j);
    }
}

/// After `name` is made to name `inode`, it names `inode`.
pub proof fn lemma_set_child_same(kids: Seq<(Seq<char>, u64)>, name: Seq<char>, inode: u64)
    ensures
        child_of(set_child(kids, name, inode), name) == Some(inode),
{
    let k2 = set_child(kids, name, inode);
    match name_pos(kids, name) {
        Some(i) => {
            let i0 = choose|i: int| is_first(kids, name, i);
            assert(is_first(kids, name, i0));
            assert(is_first(k2, name, i0));
            lemma_first_unique(k2, name, i0);
        },
        None => {
            assert forall|j: int| 0 <= j < kids.len() implies kids[j].0 != name by {
                if kids[j].0 == name {
                    lemma_has_first(kids, name, j);
                }
            }
            assert(is_first(k2, name, kids.len() as int));
            lemma_first_unique(k2, name, kids.len() as int);
        },
    }
}

/// Making `name` name `inode` leaves every other name as it was.
pub proof fn lemma_set_child_other(
    kids: Seq<(Seq<char>, u64)>,
    name: Seq<char>,
    inode: u64,
    other: Seq<char>,
)
    requires
        other != name,
    ensures
        child_of(set_child(kids, name, inode), other) == child_of(kids, other),
{
    let k2 = set_child(kids, name, inode);
    assert(forall|j: int| 0 <= j < kids.len() ==> (k2[j].0 == other <==> kids[j].0 == other));
    assert(k2.len() == kids.len() || (k2.len() == kids.len() + 1 && k2[kids.len() as int].0 == name));
    match name_pos(kids, other) {
        Some(i) => {
            let i0 = choose|i: int| is_first(kids, other, i);
            assert(is_first(kids, other, i0));
            assert(is_first(k2, other, i0));
            lemma_first_unique(k2, other, i0);
            assert(k2[i0].1 == kids[i0].1);
        },
        None => {
            if name_pos(k2, other) is Some {
                let i0 = choose|i: int| is_first(k2, other, i);
                assert(is_first(k2, other, i0));
                lemma_has_first(kids, other, i0);
            }
        },
    }
}

/// No name stands twice among `kids`.
pub open spec fn distinct_names(kids: Seq<(Seq<char>, u64)>) -> bool {
    forall|i: int, j: int| 0 <= i < j < kids.len() ==> (#[trigger] kids[i]).0 != (#[trigger] kids[j]).0
}

/// Making a name name an inode keeps the names distinct.
pub proof fn lemma_set_child_distinct(kids: Seq<(Seq<char>, u64)>, name: Seq<char>, inode: u64)
    requires
        distinct_names(kids),
    ensures
        distinct_names(set_child(kids, name, inode)),
{
    let k2 = set_child(kids, name, inode);
    match name_pos(kids, name) {
        Some(p) => {
            let i0 = choose|i: int| is_first(kids, name, i);
            assert(is_first(kids, name, i0));
            assert forall|i: int, j: int| 0 <= i < j < k2.len() implies (#[trigger] k2[i]).0 != (
            #[trigger] k2[j]).0 by {
                assert(k2[i].0 == kids[i].0);
                assert(k2[j].0 == kids[j].0);
            }
        },
        None => {
            assert forall|j: int| 0 <= j < kids.len() implies kids[j].0 != name by {
                if kids[j].0 == name {
                    lemma_has_first(kids, name, j);
                }
            }
            assert forall|i: int, j: int| 0 <= i < j < k2.len() implies (#[trigger] k2[i]).0 != (
            #[trigger] k2[j]).0 by {
                if j == kids.len() {
                    assert(k2[i] == kids[i]);
                } else {
                    assert(k2[i] == kids[i]);
                    assert(k2[j] == kids[j]);
                }
            }
        },
    }
}

/// Making a name name a number within a bound keeps every entry within it.
pub proof fn lemma_set_child_bound(kids: Seq<(Seq<char>, u64)>, name: Seq<char>, inode: u64, bound: int)
    requires
        forall|i: int| 0 <= i < kids.len() ==> #[trigger] kids[i].1 <= bound,
        inode <= bound,
    ensures
        forall|i: int|
            0 <= i < set_child(kids, name, inode).len() ==> #[trigger] set_child(kids, name, inode)[i].1
                <= bound,
{
    let k2 = set_child(kids, name, inode);
    assert forall|i: int| 0 <= i < k2.len() implies #[trigger] k2[i].1 <= bound by {
        if i < kids.len() && k2[i] == kids[i] {
        }
    }
}

/// The position of `name` in `links`, found by a scan from the front.
pub fn find_link(links: &Vec<ChildLink>, name: &String) -> (res: Option<usize>)
    ensures
        match res {
            Some(i) => name_pos(links_view(links@), name@) == Some(i as int),
            None => {
                &&& name_pos(links_view(links@), name@) is None
                &&& forall|j: int|
                    0 <= j < links@.len() ==> (#[trigger] links_view(links@)[j]).0 != name@
            },
        },
{
    let ghost kids = links_view(links@);
    let mut i: usize = 0;
    while i < links.len()
        invariant
            i <= links.len(),
            kids == links_view(links@),
            forall|j: int| 0 <= j < i ==> kids[j].0 != name@,
        decreases links.len() - i,
    {
        if links[i].name == *name {
            proof {
                lemma_first_unique(kids, name@, i as int);
            }
            return Some(i);
        }
        i = i + 1;
    }
    proof {
        if exists|k: int| is_first(kids, name@, k) {
            let k = choose|k: int| is_first(kids, name@, k);
            assert(kids[k].0 != name@);
        }
    }
    None
}

/// The inode that `name` names in `links`, if any.
pub fn lookup_link(links: &Vec<ChildLink>, name: &String) -> (res: Option<u64>)
    ensures
        res == child_of(links_view(links@), name@),
{
    match find_link(links, name) {
        Some(i) => Some(links[i].inode),
        None => None,
    }
}

/// `name` stands among `kids`.
pub open spec fn has_name(kids: Seq<(Seq<char>, u64)>, name: Seq<char>) -> bool {
    exists|j: int| 0 <= j < kids.len() && (#[trigger] kids[j]).0 == name
}

/// Whether `name` stands in `links`.
pub fn contains_link(links: &Vec<ChildLink>, name: &String) -> (res: bool)
    ensures
        res == has_name(links_view(links@), name@),
{
    match find_link(links, name) {
        Some(i) => {
            assert(links_view(links@)[i as int].0 == name@);
            true
        },
        None => false,
    }
}

/// Makes `name` name `inode` in `links`, as a map insert would.
pub fn insert_link(links: &mut Vec<ChildLink>, name: String, inode: u64)
    ensures
        links_view(final(links)@) == set_child(links_view(old(links)@), name@, inode),
{
    match find_link(links, &name) {
        Some(i) => {
            links.set(i, ChildLink { name, inode });
            assert(links_view(links@) =~= set_child(links_view(old(links)@), name@, inode));
        },
        None => {
            links.push(ChildLink { name, inode });
            assert(links_view(links@) =~= set_child(links_view(old(links)@), name@, inode));
        },
    }
}

/// A copy of `links`.
pub fn copy_links(links: &Vec<ChildLink>) -> (res: Vec<ChildLink>)
    ensures
        links_view(res@) == links_view(links@),
{
    let mut res: Vec<ChildLink> = Vec::new();
    let mut i: usize = 0;
    while i < links.len()
        invariant
            i <= links.len(),
            links_view(res@) == links_view(links@).take(i as int),
        decreases links.len() - i,
    {
        let name = links[i].name.clone();
        assert(name@ == links@[i as int].name@);
        let ghost before = res@;
        res.push(ChildLink { name, inode: links[i].inode });
        assert(links_view(res@) =~= links_view(before).push(links_view(links@)[i as int]));
        assert(links_view(links@).take(i + 1) =~= links_view(links@).take(i as int).push(
            links_view(links@)[i as int],
        ));
        i = i + 1;
    }
    assert(links_view(links@).take(i as int) =~= links_view(links@));
    res
}

/// A copy of `bytes`.
pub fn copy_bytes(bytes: &Vec<u8>) -> (res: Vec<u8>)
    ensures
        res@ == bytes@,
{
    let mut res: Vec<u8> = Vec::new();
    let mut i: usize = 0;
    while i < bytes.len()
        invariant
            i <= bytes.len(),
            res@ == bytes@.take(i as int),
        decreases bytes.len() - i,
    {
        res.push(bytes[i]);
        i = i + 1;
        assert(res@ =~= bytes@.take(i as int));
    }
    assert(bytes@.take(i as int) =~= bytes@);
    res
}

/// The contents of an inode.
pub enum Node {
    Directory {
        hash_of_children: Vec<ChildLink>,
        writable_parent_instance: HashMap<i32, u64>,
        is_this_in_readable_path: bool,
        is_this_in_writable_path: bool,
    },
    File {
        file_content: Vec<u8>,
        is_this_in_readable_path: bool,
        is_this_in_writable_path: bool,
        writable_parent_instance: HashMap<i32, u64>,
    },
}

/// The contents of an inode as the specifications see them.
/// `writable_parent` maps a session to the writable directory that receives
/// the session's copy of this inode.
pub enum NodeView {
    Directory {
        children: Seq<(Seq<char>, u64)>,
        writable_parent: Map<i32, u64>,
        readable: bool,
        writable: bool,
    },
    File { content: Seq<u8>, readable: bool, writable: bool, writable_parent: Map<i32, u64> },
}

impl NodeView {
    pub open spec fn is_dir(self) -> bool {
        self is Directory
    }

    pub open spec fn kind(self) -> FileKind {
        if self is Directory {
            FileKind::Directory
        } else {
            FileKind::RegularFile
        }
    }

    pub open spec fn readable(self) -> bool {
        match self {
            NodeView::Directory { readable, .. } => readable,
            NodeView::File { readable, .. } => readable,
        }
    }

    pub open spec fn writable(self) -> bool {
        match self {
            NodeView::Directory { writable, .. } => writable,
            NodeView::File { writable, .. } => writable,
        }
    }

    pub open spec fn writable_parent(self) -> Map<i32, u64> {
        match self {
            NodeView::Directory { writable_parent, .. } => writable_parent,
            NodeView::File { writable_parent, .. } => writable_parent,
        }
    }

    /// The node with `ses` mapped to `parent` among its writable parents.
    pub open spec fn with_writable_parent(self, ses: i32, parent: u64) -> NodeView {
        match self {
            NodeView::Directory { children, writable_parent, readable, writable } => {
                NodeView::Directory {
                    children,
                    writable_parent: writable_parent.insert(ses, parent),
                    readable,
                    writable,
                }
            },
            NodeView::File { content, readable, writable, writable_parent } => NodeView::File {
                content,
                readable,
                writable,
                writable_parent: writable_parent.insert(ses, parent),
            },
        }
    }

    /// The node's entries; meaningful for a directory.
    pub open spec fn children(self) -> Seq<(Seq<char>, u64)> {
        match self {
            NodeView::Directory { children, .. } => children,
            NodeView::File { .. } => Seq::empty(),
        }
    }

    /// The directory with `name` made to name `inode`.
    pub open spec fn with_child(self, name: Seq<char>, inode: u64) -> NodeView {
        match self {
            NodeView::Directory { children, writable_parent, readable, writable } => {
                NodeView::Directory {
                    children: set_child(children, name, inode),
                    writable_parent,
                    readable,
                    writable,
                }
            },
            NodeView::File { .. } => self,
        }
    }

    /// The node's bytes; meaningful for a file.
    pub open spec fn content(self) -> Seq<u8> {
        match self {
            NodeView::File { content, .. } => content,
            NodeView::Directory { .. } => Seq::empty(),
        }
    }

    /// The file with its bytes replaced by `content`.
    pub open spec fn with_content(self, content: Seq<u8>) -> NodeView {
        match self {
            NodeView::File { readable, writable, writable_parent, .. } => NodeView::File {
                content,
                readable,
                writable,
                writable_parent,
            },
            NodeView::Directory { .. } => self,
        }
    }
}

/// An empty directory of the writable layer.
pub open spec fn writable_dir_view(children: Seq<(Seq<char>, u64)>) -> NodeView {
    NodeView::Directory {
        children,
        writable_parent: Map::empty(),
        readable: false,
        writable: true,
    }
}

/// A file of the writable layer holding `content`.
pub open spec fn writable_file_view(content: Seq<u8>) -> NodeView {
    NodeView::File { content, readable: false, writable: true, writable_parent: Map::empty() }
}

impl View for Node {
    type V = NodeView;

    open spec fn view(&self) -> NodeView {
        match self {
            Node::Directory {
                hash_of_children,
                writable_parent_instance,
                is_this_in_readable_path,
                is_this_in_writable_path,
            } => NodeView::Directory {
                children: links_view(hash_of_children@),
                writable_parent: writable_parent_instance@,
                readable: *is_this_in_readable_path,
                writable: *is_this_in_writable_path,
            },
            Node::File {
                file_content,
                is_this_in_readable_path,
                is_this_in_writable_path,
                writable_parent_instance,
            } => NodeView::File {
                content: file_content@,
                readable: *is_this_in_readable_path,
                writable: *is_this_in_writable_path,
                writable_parent: writable_parent_instance@,
            },
        }
    }
}

impl Node {
    /// The entries of a directory; `None` for a file.
    pub fn children_of_directory(&self) -> (res: Option<&Vec<ChildLink>>)
        ensures
            match res {
                Some(links) => self@.is_dir() && links_view(links@) == self@.children(),
                None => !self@.is_dir(),
            },
    {
        match self {
            Node::Directory { hash_of_children, .. } => Some(hash_of_children),
            Node::File { .. } => None,
        }
    }

    /// The bytes of a file; `None` for a directory.
    pub fn get_file_content(&self) -> (res: Option<&Vec<u8>>)
        ensures
            match res {
                Some(bytes) => !self@.is_dir() && bytes@ == self@.content(),
                None => self@.is_dir(),
            },
    {
        match self {
            Node::Directory { .. } => None,
            Node::File { file_content, .. } => Some(file_content),
        }
    }

    /// Records, for a directory, the writable directory that holds session
    /// `ses_id`'s copy of it; a file is left as it is.
    pub fn update_writable_parent_instance_for_dirs(&mut self, ses_id: i32, writable_parent: u64)
        ensures
            final(self)@ == if old(self)@.is_dir() {
                old(self)@.with_writable_parent(ses_id, writable_parent)
            } else {
                old(self)@
            },
    {
        match self {
            Node::Directory { writable_parent_instance, .. } => {
                writable_parent_instance.insert(ses_id, writable_parent);
            },
            Node::File { .. } => {},
        }
    }

    /// The writable directory recorded for session `ses_id` of a directory;
    /// `None` for a file.
    pub fn get_writable_parent_instance_for_dirs(&self, ses_id: i32) -> (res: Option<u64>)
        requires
            self@.is_dir() ==> self@.writable_parent().contains_key(ses_id),
        ensures
            res == if self@.is_dir() {
                Some(self@.writable_parent()[ses_id])
            } else {
                None
            },
    {
        match self {
            Node::Directory { writable_parent_instance, .. } => {
                Some(*writable_parent_instance.get(&ses_id).unwrap())
            },
            Node::File { .. } => None,
        }
    }

    /// Records, for a file, the writable directory that receives session
    /// `ses_id`'s copy of it; a directory is left as it is.
    pub fn update_writable_parent_instance_for_files(&mut self, ses_id: i32, writable_parent: u64)
        ensures
            final(self)@ == if old(self)@.is_dir() {
                old(self)@
            } else {
                old(self)@.with_writable_parent(ses_id, writable_parent)
            },
    {
        match self {
            Node::Directory { .. } => {},
            Node::File { writable_parent_instance, .. } => {
                writable_parent_instance.insert(ses_id, writable_parent);
            },
        }
    }

    /// The writable directory recorded for session `ses_id` of a file;
    /// `None` for a directory.
    pub fn get_writable_parent_instance_for_files(&self, ses_id: i32) -> (res: Option<u64>)
        requires
            !self@.is_dir() ==> self@.writable_parent().contains_key(ses_id),
        ensures
            res == if self@.is_dir() {
                None
            } else {
                Some(self@.writable_parent()[ses_id])
            },
    {
        match self {
            Node::Directory { .. } => None,
            Node::File { writable_parent_instance, .. } => {
                Some(*writable_parent_instance.get(&ses_id).unwrap())
            },
        }
    }

    /// Whether the node belongs to the read-only layer.
    pub fn is_it_present_in_readable_path(&self) -> (res: Option<bool>)
        ensures
            res == Some(self@.readable()),
    {
        match self {
            Node::Directory { is_this_in_readable_path, .. } => Some(*is_this_in_readable_path),
            Node::File { is_this_in_readable_path, .. } => Some(*is_this_in_readable_path),
        }
    }

    /// Whether the node belongs to a writable layer.
    pub fn is_it_present_in_writable_path(&self) -> (res: Option<bool>)
        ensures
            res == Some(self@.writable()),
    {
        match self {
            Node::Directory { is_this_in_writable_path, .. } => Some(*is_this_in_writable_path),
            Node::File { is_this_in_writable_path, .. } => Some(*is_this_in_writable_path),
        }
    }
}

impl Node {
    /// The directory with `name` made to name `inode`; a file as it is.
    pub fn with_link(self, name: String, inode: u64) -> (res: Node)
        ensures
            res@ == self@.with_child(name@, inode),
    {
        match self {
            Node::Directory {
                mut hash_of_children,
                writable_parent_instance,
                is_this_in_readable_path,
                is_this_in_writable_path,
            } => {
                insert_link(&mut hash_of_children, name, inode);
                Node::Directory {
                    hash_of_children,
                    writable_parent_instance,
                    is_this_in_readable_path,
                    is_this_in_writable_path,
                }
            },
            Node::File { .. } => self,
        }
    }

    /// The node with `ses` mapped to `parent` among its writable parents.
    pub fn with_parent(self, ses: i32, parent: u64) -> (res: Node)
        ensures
            res@ == self@.with_writable_parent(ses, parent),
    {
        let mut node = self;
        if node.children_of_directory().is_some() {
            node.update_writable_parent_instance_for_dirs(ses, parent);
        } else {
            node.update_writable_parent_instance_for_files(ses, parent);
        }
        node
    }

    /// The file with its bytes replaced; a directory as it is.
    pub fn with_bytes(self, content: Vec<u8>) -> (res: Node)
        ensures
            res@ == self@.with_content(content@),
    {
        match self {
            Node::File {
                file_content: _,
                is_this_in_readable_path,
                is_this_in_writable_path,
                writable_parent_instance,
            } => Node::File {
                file_content: content,
                is_this_in_readable_path,
                is_this_in_writable_path,
                writable_parent_instance,
            },
            Node::Directory { .. } => self,
        }
    }
}

/// An inode: its attributes and its contents.
pub struct InodeContent {
    pub inode_attributes: Attr,
    pub node_kind: Node,
}

/// An inode as the specifications see it.
pub struct InodeView {
    pub attr: Attr,
    pub node: NodeView,
}

impl View for InodeContent {
    type V = InodeView;

    open spec fn view(&self) -> InodeView {
        InodeView { attr: self.inode_attributes, node: self.node_kind@ }
    }
}

impl InodeContent {
    /// Whether the inode is a directory or a regular file.
    pub fn get_inode_kind(&self) -> (res: FileKind)
        ensures
            res == self@.node.kind(),
    {
        match &self.node_kind {
            Node::Directory { .. } => FileKind::Directory,
            Node::File { .. } => FileKind::RegularFile,
        }
    }
}

} // verus!
