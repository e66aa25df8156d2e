//! Renaming. A renamed entry becomes a new writable inode holding a copy of
//! the old one's contents; the old name is marked deleted.

use crate::attr::{fresh_attr, make_attribute};
use crate::node::{
    copy_bytes, copy_links, links_view, writable_dir_view, writable_file_view, ChildLink,
    InodeContent, InodeView, Node,
};
use crate::state::{FsError, FsView, UnionFs};
use std::collections::HashMap;
use std::time::SystemTime;
use vstd::prelude::*;

verus! {

broadcast use vstd::std_specs::hash::group_hash_axioms;

/// What a renamed entry carries over, as the specifications see it.
pub enum PayloadView {
    Dir(Seq<(Seq<char>, u64)>),
    File(Seq<u8>),
}

/// What inode `ino` carries over: a directory's entries or a file's bytes.
pub open spec fn payload_of(s: FsView, ino: u64) -> PayloadView {
    let n = s.nodes[ino].node;
    if n.is_dir() {
        PayloadView::Dir(n.children())
    } else {
        PayloadView::File(n.content())
    }
}

/// The payload of `ino` can be read while directory `locked` is being
/// changed: `ino` exists, and a directory `ino` is not `locked` itself.
pub open spec fn payload_ok(s: FsView, ino: u64, locked: u64) -> bool {
    s.nodes.contains_key(ino) && (s.nodes[ino].node.is_dir() ==> ino != locked)
}

/// The state with `payload` placed, at time `now`, in a new writable inode
/// numbered as the last inode handed out, replacing whatever had that number.
pub open spec fn place_payload(s: FsView, payload: PayloadView, now: SystemTime) -> FsView {
    let c = s.cur_inode;
    match payload {
        PayloadView::Dir(k) => s.with_node(
            c,
            InodeView { attr: fresh_attr(c, true, now), node: writable_dir_view(k) },
        ),
        PayloadView::File(b) => s.with_node(
            c,
            InodeView { attr: fresh_attr(c, false, now), node: writable_file_view(b) },
        ),
    }
}

/// A rename within the read-only root by session `ses`. In the session's
/// writable root `wp`, `name` is marked deleted and `newname` names the inode
/// `name` named there (renamed accordingly) or, failing that, the next inode
/// (named `newname`). The payload is read from what `name` names in the
/// read-only root, and placed at the last inode handed out.
pub open spec fn rename_within_root(s: FsView, ses: i32, name: Seq<char>, newname: Seq<char>, now: SystemTime) -> Option<
    FsView,
> {
    if !s.sessions.contains_key(ses) || !s.is_dir_at(s.sessions[ses]) {
        None
    } else {
        let wp = s.sessions[ses];
        let found = s.child_in(wp, name);
        let step = match found {
            Some(v) => Some((s.with_child(wp, name, 0).with_name(v, newname), v)),
            None => if s.cur_inode == u64::MAX {
                None
            } else {
                let s0 = s.bumped();
                Some((s0.with_child(wp, name, 0).with_name(s0.cur_inode, newname), s0.cur_inode))
            },
        };
        match step {
            None => None,
            Some((s1, val)) => {
                let s2 = s1.with_child(wp, newname, val);
                if wp == 1 || !s2.is_dir_at(1) || s2.child_in(1, name) is None {
                    None
                } else {
                    let child = s2.child_in(1, name)->0;
                    if !payload_ok(s2, child, wp) {
                        None
                    } else {
                        Some(place_payload(s2, payload_of(s2, child), now))
                    }
                }
            },
        }
    }
}

/// A rename out of the read-only root into `newparent` by session `ses`.
/// The payload comes from what `name` names in the session's writable root
/// `wp` (that inode is dropped with its name, and the counter moves on) or,
/// failing that, in the read-only root; either way `name` is marked deleted
/// in `wp`. Where `newname` does not name a live inode in `newparent`, it
/// names the next inode there. The payload is placed at the last inode
/// handed out, unless the name came from the read-only root and `newname`
/// was live; the answer is then `NotFound`.
pub open spec fn rename_from_root(
    s: FsView,
    ses: i32,
    name: Seq<char>,
    newparent: u64,
    newname: Seq<char>,
    now: SystemTime,
) -> Option<(FsView, Result<(), FsError>)> {
    if !s.sessions.contains_key(ses) || !s.is_dir_at(s.sessions[ses]) {
        None
    } else {
        let wp = s.sessions[ses];
        let found = s.child_in(wp, name);
        let first = match found {
            Some(ci) => if !payload_ok(s, ci, wp) || s.cur_inode == u64::MAX {
                None
            } else {
                let s1 = s.with_child(wp, name, 0).bumped();
                Some((s1.without_node(ci).without_name(ci), payload_of(s, ci), true))
            },
            None => if wp == 1 || !s.is_dir_at(1) || s.child_in(1, name) is None {
                None
            } else {
                let ci = s.child_in(1, name)->0;
                if !payload_ok(s, ci, wp) {
                    None
                } else {
                    Some((s.with_child(wp, name, 0), payload_of(s, ci), false))
                }
            },
        };
        match first {
            None => None,
            Some((s2, payload, need)) => if !s2.is_dir_at(newparent) {
                None
            } else {
                let existing = s2.child_in(newparent, newname);
                let second = if existing is Some && existing->0 != 0 {
                    Some((s2, need))
                } else if s2.cur_inode == u64::MAX {
                    None
                } else {
                    let s3 = s2.bumped();
                    Some((s3.with_child(newparent, newname, s3.cur_inode), true))
                };
                match second {
                    None => None,
                    Some((s3, need3)) => if need3 {
                        Some((place_payload(s3, payload, now), Ok(())))
                    } else {
                        Some((s3, Err(FsError::NotFound)))
                    },
                }
            },
        }
    }
}

/// The state and answer after session `ses` renames `name` in `parent` to
/// `newname` in `newparent`, at time `now`. Within and out of the read-only
/// root, for a known session, as `rename_within_root` and
/// `rename_from_root` say. Between two other distinct directories, `name`
/// is only marked deleted in `parent` and the answer is `NotFound`; in every
/// other case nothing changes and the answer is `NotFound`. `None` where the
/// request cannot be served.
pub open spec fn rename_spec(
    s: FsView,
    ses: Option<i32>,
    parent: u64,
    name: Seq<char>,
    newparent: u64,
    newname: Seq<char>,
    now: SystemTime,
) -> Option<(FsView, Result<(), FsError>)> {
    if parent == 1 && newparent == 1 && ses is Some {
        match rename_within_root(s, ses->0, name, newname, now) {
            None => None,
            Some(s1) => Some((s1, Ok(()))),
        }
    } else if parent == 1 && ses is Some {
        rename_from_root(s, ses->0, name, newparent, newname, now)
    } else if parent != 0 && parent != newparent {
        if !s.is_dir_at(parent) {
            None
        } else {
            match s.child_in(parent, name) {
                Some(v) => if !payload_ok(s, v, parent) {
                    None
                } else {
                    Some((s.with_child(parent, name, 0), Err(FsError::NotFound)))
                },
                None => Some((s, Err(FsError::NotFound))),
            }
        }
    } else {
        Some((s, Err(FsError::NotFound)))
    }
}

/// What a renamed entry carries over.
pub enum Payload {
    Dir(Vec<ChildLink>),
    File(Vec<u8>),
}

/// The view of a payload.
pub open spec fn payload_view(p: Payload) -> PayloadView {
    match p {
        Payload::Dir(k) => PayloadView::Dir(links_view(k@)),
        Payload::File(b) => PayloadView::File(b@),
    }
}

impl UnionFs {
    /// A copy of what inode `ino` carries over.
    fn payload(&self, ino: u64) -> (res: Payload)
        requires
            self@.nodes.contains_key(ino),
        ensures
            payload_view(res) == payload_of(self@, ino),
    {
        let node = &self.node_ref(ino).unwrap().node_kind;
        match node.children_of_directory() {
            Some(k) => Payload::Dir(copy_links(k)),
            None => Payload::File(copy_bytes(node.get_file_content().unwrap())),
        }
    }

    /// Places `payload` at the last inode handed out.
    fn place(&mut self, payload: Payload, now: SystemTime)
        ensures
            final(self)@ == place_payload(old(self)@, payload_view(payload), now),
    {
        let c = self.curr_inode_val;
        let ghost pv = payload_view(payload);
        let content = match payload {
            Payload::Dir(k) => {
                let ghost kv = links_view(k@);
                let content = InodeContent {
                inode_attributes: make_attribute(c, true, now),
                node_kind: Node::Directory {
                    hash_of_children: k,
                    writable_parent_instance: HashMap::new(),
                    is_this_in_readable_path: false,
                    is_this_in_writable_path: true,
                },
            };
                assert(content@.node =~= writable_dir_view(kv));
                content
            },
            Payload::File(b) => {
                let ghost bv = b@;
                let content = InodeContent {
                inode_attributes: make_attribute(c, false, now),
                node_kind: Node::File {
                    file_content: b,
                    is_this_in_readable_path: false,
                    is_this_in_writable_path: true,
                    writable_parent_instance: HashMap::new(),
                },
            };
                assert(content@.node =~= writable_file_view(bv));
                content
            },
        };
        self.put_node(c, content);
    }

    fn rename_in_root(&mut self, ses: i32, name: String, newname: String, now: SystemTime)
        requires
            rename_within_root(old(self)@, ses, name@, newname@, now) is Some,
        ensures
            rename_within_root(old(self)@, ses, name@, newname@, now) == Some(final(self)@),
    {
        let wp = *self.session_id_mapping.get(&ses).unwrap();
        let val = match self.dir_child(wp, &name) {
            Some(v) => {
                self.set_dir_child(wp, name.clone(), 0);
                self.put_name(v, newname.clone());
                v
            },
            None => {
                let v = self.alloc_inode();
                self.set_dir_child(wp, name.clone(), 0);
                self.put_name(v, newname.clone());
                v
            },
        };
        self.set_dir_child(wp, newname, val);
        let child = self.dir_child(1, &name).unwrap();
        let payload = self.payload(child);
        self.place(payload, now);
    }

    fn rename_out_of_root(
        &mut self,
        ses: i32,
        name: String,
        newparent: u64,
        newname: String,
        now: SystemTime,
    ) -> (res: Result<(), FsError>)
        requires
            rename_from_root(old(self)@, ses, name@, newparent, newname@, now) is Some,
        ensures
            rename_from_root(old(self)@, ses, name@, newparent, newname@, now) == Some(
                (final(self)@, res),
            ),
    {
        let wp = *self.session_id_mapping.get(&ses).unwrap();
        let mut need_to_update_global_state = false;
        let payload = match self.dir_child(wp, &name) {
            Some(ci) => {
                let p = self.payload(ci);
                need_to_update_global_state = true;
                self.set_dir_child(wp, name, 0);
                self.alloc_inode();
                self.drop_node(ci);
                self.drop_name(ci);
                p
            },
            None => {
                let ci = self.dir_child(1, &name).unwrap();
                let p = self.payload(ci);
                self.set_dir_child(wp, name, 0);
                p
            },
        };
        let existing = self.dir_child(newparent, &newname);
        if existing.is_some() && existing.unwrap() != 0 {
        } else {
            let c = self.alloc_inode();
            self.set_dir_child(newparent, newname, c);
            need_to_update_global_state = true;
        }
        if need_to_update_global_state {
            self.place(payload, now);
            Ok(())
        } else {
            Err(FsError::NotFound)
        }
    }

    /// Renames `name` in `parent` to `newname` in `newparent` for session
    /// `ses`, at time `now`.
    pub fn rename(
        &mut self,
        ses: Option<i32>,
        parent: u64,
        name: String,
        newparent: u64,
        newname: String,
        now: SystemTime,
    ) -> (res: Result<(), FsError>)
        requires
            rename_spec(old(self)@, ses, parent, name@, newparent, newname@, now) is Some,
        ensures
            rename_spec(old(self)@, ses, parent, name@, newparent, newname@, now) == Some(
                (final(self)@, res),
            ),
    {
        if parent == 1 && newparent == 1 && ses.is_some() {
            self.rename_in_root(ses.unwrap(), name, newname, now);
            Ok(())
        } else if parent == 1 && ses.is_some() {
            self.rename_out_of_root(ses.unwrap(), name, newparent, newname, now)
        } else if parent != 0 && parent != newparent {
            if self.dir_child(parent, &name).is_some() {
                self.set_dir_child(parent, name, 0);
            }
            Err(FsError::NotFound)
        } else {
            Err(FsError::NotFound)
        }
    }
}

} // verus!
