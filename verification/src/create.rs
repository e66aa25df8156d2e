//! Making new names: device nodes and files, directories, and files opened
//! at their creation.

use crate::attr::{fresh_attr, make_attribute, Attr};
use crate::lookup::EntryReply;
use crate::node::{links_view, writable_dir_view, writable_file_view, ChildLink, InodeContent, InodeView, Node};
use crate::state::{FsError, FsView, UnionFs};
use std::collections::HashMap;
use std::time::SystemTime;
use vstd::prelude::*;

verus! {

broadcast use vstd::std_specs::hash::group_hash_axioms;

/// The answer to a create.
pub enum CreateReply {
    /// The new file's attributes, the generation number and the file handle
    /// reported with them.
    Created { attr: Attr, generation: u64, fh: u64 },
    /// The request fails with this error.
    Error(FsError),
}

/// The state with a new empty writable file at `c`, made at `now`, that
/// shadows nothing.
pub open spec fn with_new_file(s: FsView, c: u64, now: SystemTime) -> FsView {
    s.with_node(c, InodeView { attr: fresh_attr(c, false, now), node: writable_file_view(Seq::empty()) }).with_shadow(c, None)
}

/// The state with a new empty writable directory at `c`, made at `now`,
/// that shadows nothing.
pub open spec fn with_new_dir(s: FsView, c: u64, now: SystemTime) -> FsView {
    s.with_node(c, InodeView { attr: fresh_attr(c, true, now), node: writable_dir_view(Seq::empty()) }).with_shadow(c, None)
}

/// The state and answer after `name` is made in directory `parent` as a new
/// empty file at time `now`: the next inode, entered under `name` whatever
/// the name named before. `None` where the request cannot be served.
pub open spec fn mknod_spec(s: FsView, parent: u64, name: Seq<char>, now: SystemTime) -> Option<
    (FsView, EntryReply),
> {
    if s.cur_inode == u64::MAX || !s.is_dir_at(parent) {
        None
    } else {
        let s1 = s.bumped();
        let c = s1.cur_inode;
        Some(
            (
                with_new_file(s1.with_child(parent, name, c), c, now),
                EntryReply::Entry { attr: fresh_attr(c, false, now), generation: 1 },
            ),
        )
    }
}

/// The writable root of session `ses` when a request names the read-only
/// root: the root and the session's writable root are two directories, and
/// the session has one.
pub open spec fn root_pair_ok(s: FsView, ses: i32) -> bool {
    &&& s.sessions.contains_key(ses)
    &&& s.is_dir_at(s.sessions[ses])
    &&& s.is_dir_at(1)
    &&& s.sessions[ses] != 1
}

/// The state and answer after session `ses` makes directory `name` in
/// `parent` at time `now`. An inode is used up either way. In the read-only
/// root the name must be absent from both the root and the session's
/// writable root, and goes into the latter; elsewhere it must be absent
/// from `parent`. `None` where the request cannot be served.
pub open spec fn mkdir_spec(s: FsView, ses: Option<i32>, parent: u64, name: Seq<char>, now: SystemTime) -> Option<
    (FsView, EntryReply),
> {
    if s.cur_inode == u64::MAX {
        None
    } else {
        let s1 = s.bumped();
        let c = s1.cur_inode;
        let made = with_new_dir(s1, c, now);
        let entry = EntryReply::Entry { attr: fresh_attr(c, true, now), generation: 1 };
        if parent == 1 && ses is Some {
            let x = ses->0;
            if !root_pair_ok(s1, x) {
                None
            } else {
                let wr = s1.sessions[x];
                if s1.child_in(wr, name) is None && s1.child_in(1, name) is None {
                    Some((with_new_dir(s1.with_child(wr, name, c), c, now), entry))
                } else {
                    Some((s1, EntryReply::Error(FsError::AlreadyExists)))
                }
            }
        } else if !s1.is_dir_at(parent) {
            None
        } else if s1.child_in(parent, name) is None {
            Some((with_new_dir(s1.with_child(parent, name, c), c, now), entry))
        } else {
            Some((s1, EntryReply::Error(FsError::AlreadyExists)))
        }
    }
}

/// The state and answer after session `ses` creates file `name` in `parent`
/// at time `now`. In the read-only root the file is made only where the
/// name stands both in the root and in the session's writable root, and goes
/// into the latter; elsewhere only where the name is absent from `parent`.
/// The answer carries the last file handle handed out. `None` where the
/// request cannot be served.
pub open spec fn create_spec(s: FsView, ses: Option<i32>, parent: u64, name: Seq<char>, now: SystemTime) -> Option<
    (FsView, CreateReply),
> {
    let target = if parent == 1 && ses is Some {
        if !root_pair_ok(s, ses->0) {
            None
        } else {
            let wr = s.sessions[ses->0];
            Some(if s.child_in(1, name) is Some && s.child_in(wr, name) is Some { Some(wr) } else { None })
        }
    } else if !s.is_dir_at(parent) {
        None
    } else {
        Some(if s.child_in(parent, name) is None { Some(parent) } else { None })
    };
    match target {
        None => None,
        Some(None) => Some((s, CreateReply::Error(FsError::AlreadyExists))),
        Some(Some(dir)) => if s.cur_inode == u64::MAX {
            None
        } else {
            let s1 = s.bumped();
            let c = s1.cur_inode;
            Some(
                (
                    with_new_file(s1.with_child(dir, name, c), c, now),
                    CreateReply::Created { attr: fresh_attr(c, false, now), generation: 0, fh: s.cur_fh },
                ),
            )
        },
    }
}

impl UnionFs {
    /// Adds the empty writable file `c`.
    fn add_file(&mut self, c: u64, now: SystemTime) -> (res: Attr)
        ensures
            final(self)@ == with_new_file(old(self)@, c, now),
            res == fresh_attr(c, false, now),
    {
        let attr = make_attribute(c, false, now);
        let content = InodeContent {
            inode_attributes: attr,
            node_kind: Node::File {
                file_content: Vec::new(),
                is_this_in_readable_path: false,
                is_this_in_writable_path: true,
                writable_parent_instance: HashMap::new(),
            },
        };
        assert(content@.node =~= writable_file_view(Seq::empty()));
        self.put_node(c, content);
        self.put_shadow(c, None);
        attr
    }

    /// Adds the empty writable directory `c`.
    fn add_dir(&mut self, c: u64, now: SystemTime) -> (res: Attr)
        ensures
            final(self)@ == with_new_dir(old(self)@, c, now),
            res == fresh_attr(c, true, now),
    {
        let attr = make_attribute(c, true, now);
        let content = InodeContent {
            inode_attributes: attr,
            node_kind: Node::Directory {
                hash_of_children: Vec::new(),
                writable_parent_instance: HashMap::new(),
                is_this_in_readable_path: false,
                is_this_in_writable_path: true,
            },
        };
        assert(links_view(Seq::<ChildLink>::empty()) =~= Seq::empty());
        assert(content@.node == writable_dir_view(Seq::empty()));
        self.put_node(c, content);
        self.put_shadow(c, None);
        attr
    }

    /// Makes `name` in directory `parent` a new empty file, at time `now`.
    pub fn mknod(&mut self, parent: u64, name: String, now: SystemTime) -> (res: EntryReply)
        requires
            mknod_spec(old(self)@, parent, name@, now) is Some,
        ensures
            mknod_spec(old(self)@, parent, name@, now) == Some((final(self)@, res)),
    {
        let new_inode_val = self.alloc_inode();
        self.set_dir_child(parent, name, new_inode_val);
        let attr = self.add_file(new_inode_val, now);
        EntryReply::Entry { attr, generation: 1 }
    }

    /// Makes directory `name` in `parent` for session `ses`, at time `now`.
    pub fn mkdir(&mut self, ses: Option<i32>, parent: u64, name: String, now: SystemTime) -> (res:
        EntryReply)
        requires
            mkdir_spec(old(self)@, ses, parent, name@, now) is Some,
        ensures
            mkdir_spec(old(self)@, ses, parent, name@, now) == Some((final(self)@, res)),
    {
        let new_inode_val = self.alloc_inode();
        let mut final_status = false;
        if parent == 1 && ses.is_some() {
            let x = ses.unwrap();
            let wr = *self.session_id_mapping.get(&x).unwrap();
            if self.dir_child(wr, &name).is_none() && self.dir_child(1, &name).is_none() {
                self.set_dir_child(wr, name, new_inode_val);
                final_status = true;
            }
        } else {
            if self.dir_child(parent, &name).is_none() {
                self.set_dir_child(parent, name, new_inode_val);
                final_status = true;
            }
        }
        if final_status {
            let attr = self.add_dir(new_inode_val, now);
            EntryReply::Entry { attr, generation: 1 }
        } else {
            EntryReply::Error(FsError::AlreadyExists)
        }
    }

    /// Creates file `name` in `parent` for session `ses`, at time `now`.
    pub fn create(&mut self, ses: Option<i32>, parent: u64, name: String, now: SystemTime) -> (res:
        CreateReply)
        requires
            create_spec(old(self)@, ses, parent, name@, now) is Some,
        ensures
            create_spec(old(self)@, ses, parent, name@, now) == Some((final(self)@, res)),
    {
        let fh = self.curr_file_handle;
        let mut target: Option<u64> = None;
        if parent == 1 && ses.is_some() {
            let x = ses.unwrap();
            let wr = *self.session_id_mapping.get(&x).unwrap();
            let writable_status = self.dir_child(wr, &name);
            let readable_status = self.dir_child(1, &name);
            if readable_status.is_some() && writable_status.is_some() {
                target = Some(wr);
            }
        } else {
            if self.dir_child(parent, &name).is_none() {
                target = Some(parent);
            }
        }
        match target {
            Some(dir) => {
                let new_inode_val = self.alloc_inode();
                self.set_dir_child(dir, name, new_inode_val);
                let attr = self.add_file(new_inode_val, now);
                CreateReply::Created { attr, generation: 0, fh }
            },
            None => CreateReply::Error(FsError::AlreadyExists),
        }
    }
}

} // verus!
