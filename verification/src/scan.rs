//! Building the read-only layer from a scanned directory tree: each entry
//! gets the next inode in turn, a directory's own entries right after it.

use crate::attr::{fresh_attr, make_attribute};
use crate::node::{copy_bytes, links_view, ChildLink, InodeContent, InodeView, Node, NodeView};
use crate::path::{strip, strip_spec};
use crate::state::{FsView, UnionFs};
use std::collections::HashMap;
use std::time::SystemTime;
use vstd::prelude::*;

verus! {

broadcast use vstd::std_specs::hash::group_hash_axioms;

/// What a scanned entry turned out to be.
pub enum ScannedKind {
    /// A regular file, with its bytes.
    File(Vec<u8>),
    /// A directory, whose entries are scanned next.
    Directory,
    /// Anything else: it gets a name and an entry, but no inode.
    Other,
}

/// A file of the read-only layer holding `content`.
pub open spec fn readable_file_view(content: Seq<u8>) -> NodeView {
    NodeView::File { content, readable: true, writable: false, writable_parent: Map::empty() }
}

/// An empty directory of the read-only layer.
pub open spec fn readable_dir_view() -> NodeView {
    NodeView::Directory {
        children: Seq::empty(),
        writable_parent: Map::empty(),
        readable: true,
        writable: false,
    }
}

/// The state after a scanned entry called `name`, of kind `kind`, is added
/// under `parent` at time `now`: the next inode gets the name, is entered in
/// `parent` where `parent` exists, and holds the file or the empty directory.
/// `None` where the counter is exhausted or `parent` is a file.
pub open spec fn instantiate_spec(s: FsView, parent: u64, name: Seq<char>, kind: ScannedKind, now: SystemTime) -> Option<
    FsView,
> {
    if s.cur_inode == u64::MAX {
        None
    } else {
        let s1 = s.bumped();
        let c = s1.cur_inode;
        let s2 = s1.with_name(c, name);
        if s2.nodes.contains_key(parent) && !s2.is_dir_at(parent) {
            None
        } else {
            let s3 = if s2.nodes.contains_key(parent) {
                s2.with_child(parent, name, c)
            } else {
                s2
            };
            Some(
                match kind {
                    ScannedKind::File(b) => s3.with_node(
                        c,
                        InodeView { attr: fresh_attr(c, false, now), node: readable_file_view(b@) },
                    ),
                    ScannedKind::Directory => s3.with_node(
                        c,
                        InodeView { attr: fresh_attr(c, true, now), node: readable_dir_view() },
                    ),
                    ScannedKind::Other => s3,
                },
            )
        }
    }
}

impl UnionFs {
    /// Adds the scanned entry `name` of kind `kind` under `parent`, at time
    /// `now`; the inode it got.
    pub fn instantiate_entry(&mut self, parent: u64, name: String, kind: ScannedKind, now: SystemTime) -> (res:
        u64)
        requires
            instantiate_spec(old(self)@, parent, name@, kind, now) is Some,
        ensures
            instantiate_spec(old(self)@, parent, name@, kind, now) == Some(final(self)@),
            res == final(self)@.cur_inode,
            res == old(self)@.cur_inode + 1,
    {
        let c = self.alloc_inode();
        self.put_name(c, name.clone());
        if self.node_ref(parent).is_some() {
            self.set_dir_child(parent, name, c);
        }
        match kind {
            ScannedKind::File(actual_content) => {
                let ghost b = actual_content@;
                let content = InodeContent {
                    inode_attributes: make_attribute(c, false, now),
                    node_kind: Node::File {
                        file_content: actual_content,
                        is_this_in_writable_path: false,
                        is_this_in_readable_path: true,
                        writable_parent_instance: HashMap::new(),
                    },
                };
                assert(content@.node =~= readable_file_view(b));
                self.put_node(c, content);
            },
            ScannedKind::Directory => {
                let content = InodeContent {
                    inode_attributes: make_attribute(c, true, now),
                    node_kind: Node::Directory {
                        hash_of_children: Vec::new(),
                        writable_parent_instance: HashMap::new(),
                        is_this_in_readable_path: true,
                        is_this_in_writable_path: false,
                    },
                };
                assert(links_view(Seq::<ChildLink>::empty()) =~= Seq::empty());
                assert(content@.node == readable_dir_view());
                self.put_node(c, content);
            },
            ScannedKind::Other => {},
        }
        c
    }
}

/// A scanned entry with its path: a file with its bytes, a directory with
/// its own scanned entries, or anything else.
pub enum ScannedTree {
    File { path: String, content: Vec<u8> },
    Directory { path: String, entries: Vec<ScannedTree> },
    Other { path: String },
}

/// The state after the scanned `entries` of the directory at `dir_path` are
/// added under `parent` at time `now`, in order: each entry gets the next
/// inode under the name its path keeps once `dir_path` and every '/' are
/// taken out, and a directory's own entries follow it at once, under it.
/// `None` where some entry cannot be added.
pub open spec fn instantiate_tree_spec(
    s: FsView,
    parent: u64,
    dir_path: Seq<char>,
    entries: Seq<ScannedTree>,
    now: SystemTime,
) -> Option<FsView>
    decreases entries,
{
    if entries.len() == 0 {
        Some(s)
    } else {
        let first = match entries[0] {
            ScannedTree::File { path, content } => instantiate_spec(
                s,
                parent,
                strip_spec(dir_path, path@),
                ScannedKind::File(content),
                now,
            ),
            ScannedTree::Directory { path, entries: sub } => match instantiate_spec(
                s,
                parent,
                strip_spec(dir_path, path@),
                ScannedKind::Directory,
                now,
            ) {
                Some(s1) => {
                    proof {
                        assert(decreases_to!(entries => entries[0]));
                        assert(decreases_to!(sub => sub@));
                    }
                    instantiate_tree_spec(s1, s1.cur_inode, path@, sub@, now)
                },
                None => None,
            },
            ScannedTree::Other { path } => instantiate_spec(
                s,
                parent,
                strip_spec(dir_path, path@),
                ScannedKind::Other,
                now,
            ),
        };
        match first {
            Some(s1) => instantiate_tree_spec(
                s1,
                parent,
                dir_path,
                entries.subrange(1, entries.len() as int),
                now,
            ),
            None => None,
        }
    }
}

/// How many entries `entries` holds, those inside its directories counted.
pub open spec fn tree_size(entries: Seq<ScannedTree>) -> nat
    decreases entries,
{
    if entries.len() == 0 {
        0
    } else {
        let head: nat = match entries[0] {
            ScannedTree::Directory { entries: sub, .. } => {
                proof {
                    assert(decreases_to!(entries => entries[0]));
                    assert(decreases_to!(sub => sub@));
                }
                1 + tree_size(sub@)
            },
            _ => 1,
        };
        head + tree_size(entries.subrange(1, entries.len() as int))
    }
}

/// One entry added under a directory that the counter has passed: it
/// succeeds, moves the counter on by one, keeps every directory the counter
/// had passed, and a scanned directory becomes a directory.
proof fn lemma_instantiate_keeps_dirs(s: FsView, parent: u64, name: Seq<char>, kind: ScannedKind, now: SystemTime)
    requires
        s.is_dir_at(parent),
        parent <= s.cur_inode,
        s.cur_inode < u64::MAX,
    ensures
        instantiate_spec(s, parent, name, kind, now) is Some,
        instantiate_spec(s, parent, name, kind, now)->Some_0.cur_inode == s.cur_inode + 1,
        forall|q: u64|
            s.is_dir_at(q) && q <= s.cur_inode ==> #[trigger] instantiate_spec(
                s,
                parent,
                name,
                kind,
                now,
            )->Some_0.is_dir_at(q),
        kind is Directory ==> instantiate_spec(s, parent, name, kind, now)->Some_0.is_dir_at(
            (s.cur_inode + 1) as u64,
        ),
{
}

/// Adding scanned entries under a directory that the counter has passed
/// succeeds exactly when the counter can move on once for each of them; it
/// then moves on by that many, and every directory the counter had passed
/// stays a directory.
pub proof fn lemma_tree_fits(
    s: FsView,
    parent: u64,
    dir_path: Seq<char>,
    entries: Seq<ScannedTree>,
    now: SystemTime,
)
    requires
        s.is_dir_at(parent),
        parent <= s.cur_inode,
    ensures
        instantiate_tree_spec(s, parent, dir_path, entries, now) is Some <==> s.cur_inode + tree_size(
            entries,
        ) <= u64::MAX,
        instantiate_tree_spec(s, parent, dir_path, entries, now) is Some ==> {
            let t = instantiate_tree_spec(s, parent, dir_path, entries, now)->Some_0;
            &&& t.cur_inode == s.cur_inode + tree_size(entries)
            &&& forall|q: u64| s.is_dir_at(q) && q <= s.cur_inode ==> #[trigger] t.is_dir_at(q)
        },
    decreases entries,
{
    if entries.len() > 0 {
        let rest = entries.subrange(1, entries.len() as int);
        if s.cur_inode < u64::MAX {
            let (name, kind) = match entries[0] {
                ScannedTree::File { path, content } => (strip_spec(dir_path, path@), ScannedKind::File(content)),
                ScannedTree::Directory { path, .. } => (strip_spec(dir_path, path@), ScannedKind::Directory),
                ScannedTree::Other { path } => (strip_spec(dir_path, path@), ScannedKind::Other),
            };
            lemma_instantiate_keeps_dirs(s, parent, name, kind, now);
            let s1 = instantiate_spec(s, parent, name, kind, now)->Some_0;
            match entries[0] {
                ScannedTree::Directory { path, entries: sub } => {
                    assert(decreases_to!(entries => entries[0]));
                    assert(decreases_to!(sub => sub@));
                    lemma_tree_fits(s1, s1.cur_inode, path@, sub@, now);
                    if s1.cur_inode + tree_size(sub@) <= u64::MAX {
                        let s2 = instantiate_tree_spec(s1, s1.cur_inode, path@, sub@, now)->Some_0;
                        assert(s2.is_dir_at(parent));
                        lemma_tree_fits(s2, parent, dir_path, rest, now);
                        assert forall|q: u64| s.is_dir_at(q) && q <= s.cur_inode implies s2.is_dir_at(q) by {
                            assert(s1.is_dir_at(q));
                        }
                    }
                },
                _ => {
                    lemma_tree_fits(s1, parent, dir_path, rest, now);
                },
            }
        }
    }
}

/// The number of scanned entries, those inside directories counted; `None`
/// where it passes `u64::MAX`.
pub(crate) fn count_entries(entries: &Vec<ScannedTree>) -> (res: Option<u64>)
    ensures
        match res {
            Some(n) => n == tree_size(entries@),
            None => tree_size(entries@) > u64::MAX,
        },
    decreases entries@,
{
    let mut total: u64 = 0;
    let mut i: usize = entries.len();
    while i > 0
        invariant
            i <= entries.len(),
            total == tree_size(entries@.subrange(i as int, entries.len() as int)),
        decreases i,
    {
        let ghost tail = entries@.subrange(i - 1, entries.len() as int);
        assert(tail.subrange(1, tail.len() as int) =~= entries@.subrange(i as int, entries.len() as int));
        assert(tail[0] == entries@[i - 1]);
        let head: u64 = match &entries[i - 1] {
            ScannedTree::Directory { entries: sub, .. } => {
                proof {
                    assert(decreases_to!(entries@ => entries@[i - 1]));
                }
                match count_entries(sub) {
                    Some(n) => {
                        if n == u64::MAX {
                            proof {
                                lemma_tree_size_prefix_bound(entries@, (i - 1) as int);
                            }
                            return None;
                        }
                        n + 1
                    },
                    None => {
                        proof {
                            lemma_tree_size_prefix_bound(entries@, (i - 1) as int);
                        }
                        return None;
                    },
                }
            },
            _ => 1,
        };
        if total > u64::MAX - head {
            proof {
                lemma_tree_size_prefix_bound(entries@, (i - 1) as int);
            }
            return None;
        }
        total = total + head;
        i = i - 1;
    }
    assert(entries@.subrange(0, entries.len() as int) =~= entries@);
    Some(total)
}

/// The size of the entries from `i` on is at most the size of them all.
proof fn lemma_tree_size_prefix_bound(entries: Seq<ScannedTree>, i: int)
    requires
        0 <= i <= entries.len(),
    ensures
        tree_size(entries.subrange(i, entries.len() as int)) <= tree_size(entries),
    decreases i,
{
    if i > 0 {
        let rest = entries.subrange(1, entries.len() as int);
        assert(rest.subrange(i - 1, rest.len() as int) =~= entries.subrange(i, entries.len() as int));
        lemma_tree_size_prefix_bound(rest, i - 1);
    } else {
        assert(entries.subrange(0, entries.len() as int) =~= entries);
    }
}

impl UnionFs {
    /// Adds the scanned `entries` of the directory at `dir_path` under
    /// `parent`, at time `now`: each entry in turn, a directory's own entries
    /// right after it, under it.
    pub fn instantiate_tree(&mut self, parent: u64, dir_path: &str, entries: &Vec<ScannedTree>, now: SystemTime)
        requires
            instantiate_tree_spec(old(self)@, parent, dir_path@, entries@, now) is Some,
        ensures
            instantiate_tree_spec(old(self)@, parent, dir_path@, entries@, now) == Some(final(self)@),
        decreases entries@,
    {
        let n = entries.len();
        let mut i: usize = 0;
        assert(entries@.subrange(0, n as int) =~= entries@);
        while i < n
            invariant
                n == entries.len(),
                i <= n,
                instantiate_tree_spec(old(self)@, parent, dir_path@, entries@, now)
                    == instantiate_tree_spec(self@, parent, dir_path@, entries@.subrange(i as int, n as int), now),
                instantiate_tree_spec(old(self)@, parent, dir_path@, entries@, now) is Some,
            decreases n - i,
        {
            let ghost tail = entries@.subrange(i as int, n as int);
            assert(tail.subrange(1, tail.len() as int) =~= entries@.subrange(i + 1, n as int));
            assert(tail[0] == entries@[i as int]);
            match &entries[i] {
                ScannedTree::File { path, content } => {
                    let name = strip(dir_path, path.as_str());
                    let bytes = copy_bytes(content);
                    proof {
                        assert(instantiate_spec(self@, parent, name@, ScannedKind::File(bytes), now)
                            == instantiate_spec(self@, parent, name@, ScannedKind::File(*content), now));
                    }
                    self.instantiate_entry(parent, name, ScannedKind::File(bytes), now);
                },
                ScannedTree::Directory { path, entries: sub } => {
                    let name = strip(dir_path, path.as_str());
                    let c = self.instantiate_entry(parent, name, ScannedKind::Directory, now);
                    proof {
                        assert(decreases_to!(entries@ => entries@[i as int]));
                    }
                    self.instantiate_tree(c, path.as_str(), sub, now);
                },
                ScannedTree::Other { path } => {
                    let name = strip(dir_path, path.as_str());
                    self.instantiate_entry(parent, name, ScannedKind::Other, now);
                },
            }
            i = i + 1;
        }
        assert(entries@.subrange(n as int, n as int) =~= Seq::<ScannedTree>::empty());
    }
}

} // verus!
