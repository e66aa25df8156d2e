//! Looking a name up in a directory, as seen by one session: the session's
//! writable layer first, the read-only layer below it.

use crate::attr::{fresh_attr, make_attribute, Attr};
use crate::clone::{clone_completes, clone_fs_spec, clone_result, lemma_clone_keeps};
use crate::node::{links_view, writable_dir_view, ChildLink, InodeContent, InodeView, Node};
use crate::state::{root_name, FsError, FsView, UnionFs};
use std::collections::HashMap;
use std::time::SystemTime;
use vstd::prelude::*;

verus! {

broadcast use vstd::std_specs::hash::group_hash_axioms;

/// The answer to a request that names an entry.
pub enum EntryReply {
    /// The entry's attributes and the generation number reported with them.
    Entry { attr: Attr, generation: u64 },
    /// The request fails with this error.
    Error(FsError),
    /// The request is left unanswered.
    NoReply,
}

/// Names that desktop tools probe for and that never exist here.
pub open spec fn is_probe_name(name: Seq<char>) -> bool {
    ||| name == "autorun.inf"@
    ||| name == ".Trash"@
    ||| name == ".Trash-1000"@
    ||| name == ".xdg-volume-info"@
}

/// The state after session `ses` (not yet known) gets its writable root,
/// made at `now`: the next inode, an empty writable directory named "/"
/// that shadows the read-only root, then filled from it. `None` where the
/// counter is exhausted or the filling does not complete.
pub open spec fn with_new_session(s: FsView, ses: i32, now: SystemTime) -> Option<FsView> {
    if s.cur_inode == u64::MAX {
        None
    } else {
        let c = (s.cur_inode + 1) as u64;
        let s1 = s.bumped().with_session(ses, c).with_node(
            c,
            InodeView { attr: fresh_attr(c, true, now), node: writable_dir_view(Seq::empty()) },
        ).with_name(c, root_name()).with_shadow(c, Some(1));
        if clone_completes(s1, c, ses, now) {
            Some(clone_result(s1, c, ses, now))
        } else {
            None
        }
    }
}

/// The answer with the attributes of inode `ino` and generation `generation`;
/// `None` where `ino` does not exist.
pub open spec fn entry_of(s: FsView, ino: u64, generation: u64) -> Option<EntryReply> {
    if s.nodes.contains_key(ino) {
        Some(EntryReply::Entry { attr: s.nodes[ino].attr, generation })
    } else {
        None
    }
}

/// The search for `name` in `dir` can be made: `dir` is absent or a directory.
pub open spec fn searchable(s: FsView, dir: u64) -> bool {
    s.nodes.contains_key(dir) ==> s.is_dir_at(dir)
}

/// A lookup in the read-only root by session `ses`, whose writable root
/// is `wr`: a live writable entry wins (generation 0); a read-only entry
/// counts where the writable root lacks the name entirely (generation 1).
pub open spec fn lookup_in_root(s: FsView, wr: u64, name: Seq<char>) -> Option<(FsView, EntryReply)> {
    if !searchable(s, 1) || !searchable(s, wr) {
        None
    } else {
        let rd = s.child_in(1, name);
        let wd = s.child_in(wr, name);
        if wd is Some && wd->0 != 0 {
            match entry_of(s, wd->0, 0) {
                Some(r) => Some((s, r)),
                None => None,
            }
        } else if wd is None && rd is Some {
            match entry_of(s, rd->0, 1) {
                Some(r) => Some((s, r)),
                None => None,
            }
        } else {
            Some((s, EntryReply::Error(FsError::NotFound)))
        }
    }
}

/// A lookup in writable directory `parent` by session `ses`: a live
/// writable entry wins; otherwise an entry of the read-only directory that
/// `parent` shadows counts where `parent` lacks the name entirely, and a
/// read-only file so found records `parent` as `ses`'s writable parent.
pub open spec fn lookup_in_dir(s: FsView, ses: i32, parent: u64, name: Seq<char>) -> Option<
    (FsView, EntryReply),
> {
    let shadow = if s.w2r.contains_key(parent) {
        s.w2r[parent]
    } else {
        None
    };
    if (shadow is Some && !searchable(s, shadow->0)) || !searchable(s, parent) {
        None
    } else {
        let rd = match shadow {
            Some(rp) => s.child_in(rp, name),
            None => None,
        };
        let wd = s.child_in(parent, name);
        if wd is Some && wd->0 != 0 {
            match entry_of(s, wd->0, 1) {
                Some(r) => Some((s, r)),
                None => None,
            }
        } else if rd is Some && wd is None {
            let r = rd->0;
            match entry_of(s, r, 1) {
                Some(reply) => {
                    let s1 = if s.nodes[r].node.is_dir() {
                        s
                    } else {
                        s.with_writable_parent(r, ses, parent)
                    };
                    Some((s1, reply))
                },
                None => None,
            }
        } else {
            Some((s, EntryReply::Error(FsError::NotFound)))
        }
    }
}

/// The state and answer after session `ses` (`None` where the session of the
/// requesting process could not be read) looks `name` up in `parent`, at
/// time `now`. A session seen for the first time gets its writable layer
/// first; the session 0 is never answered. `None` where the request cannot be served.
pub open spec fn lookup_spec(s: FsView, ses: Option<i32>, parent: u64, name: Seq<char>, now: SystemTime) -> Option<
    (FsView, EntryReply),
> {
    if is_probe_name(name) {
        Some((s, EntryReply::Error(FsError::NotFound)))
    } else {
        match ses {
            None => Some((s, EntryReply::NoReply)),
            Some(x) => {
                if !s.sessions.contains_key(x) && x == 0 {
                    Some((s, EntryReply::NoReply))
                } else {
                    let ready = if s.sessions.contains_key(x) {
                        Some(s)
                    } else {
                        with_new_session(s, x, now)
                    };
                    match ready {
                        None => None,
                        Some(s2) => if parent == 1 {
                            lookup_in_root(s2, s2.sessions[x], name)
                        } else {
                            lookup_in_dir(s2, x, parent, name)
                        },
                    }
                }
            },
        }
    }
}

/// Whether `name` is one of the names that desktop tools probe for.
pub fn is_probe(name: &String) -> (res: bool)
    ensures
        res == is_probe_name(name@),
{
    let probe1 = String::from_str("autorun.inf");
    let probe2 = String::from_str(".Trash");
    let probe3 = String::from_str(".Trash-1000");
    let probe4 = String::from_str(".xdg-volume-info");
    *name == probe1 || *name == probe2 || *name == probe3 || *name == probe4
}

impl UnionFs {
    /// The inode that `name_to_be_searched` names in the read-only directory
    /// `parent_inode_value`; `None` where there is no such entry or directory.
    pub fn check_readable_path(&self, parent_inode_value: u64, name_to_be_searched: &String) -> (res:
        Option<u64>)
        requires
            searchable(self@, parent_inode_value),
        ensures
            res == self@.child_in(parent_inode_value, name_to_be_searched@),
    {
        match self.node_ref(parent_inode_value) {
            Some(_) => self.dir_child(parent_inode_value, name_to_be_searched),
            None => None,
        }
    }

    /// The inode that `name_to_be_searched` names in the writable directory
    /// `parent_inode_value`; `None` where there is no such entry or directory.
    pub fn check_writable_path(&self, parent_inode_value: u64, name_to_be_searched: &String) -> (res:
        Option<u64>)
        requires
            searchable(self@, parent_inode_value),
        ensures
            res == self@.child_in(parent_inode_value, name_to_be_searched@),
    {
        match self.node_ref(parent_inode_value) {
            Some(_) => self.dir_child(parent_inode_value, name_to_be_searched),
            None => None,
        }
    }

    /// The answer with the attributes of inode `ino`.
    fn entry_reply(&self, ino: u64, generation: u64) -> (res: EntryReply)
        requires
            self@.nodes.contains_key(ino),
        ensures
            entry_of(self@, ino, generation) == Some(res),
    {
        let attr = self.node_ref(ino).unwrap().inode_attributes;
        EntryReply::Entry { attr, generation }
    }

    /// Gives session `ses_id`, not yet known, its writable root, filled from
    /// the read-only layer, at time `now`: the first step of its first lookup.
    pub fn start_session(&mut self, ses_id: i32, now: SystemTime)
        requires
            !old(self)@.sessions.contains_key(ses_id),
            with_new_session(old(self)@, ses_id, now) is Some,
        ensures
            Some(final(self)@) == with_new_session(old(self)@, ses_id, now),
            final(self)@.sessions.contains_key(ses_id),
    {
        let cur = self.alloc_inode();
        self.session_id_mapping.insert(ses_id, cur);
        let content = InodeContent {
            inode_attributes: make_attribute(cur, true, now),
            node_kind: Node::Directory {
                hash_of_children: Vec::new(),
                writable_parent_instance: HashMap::new(),
                is_this_in_readable_path: false,
                is_this_in_writable_path: true,
            },
        };
        assert(links_view(Seq::<ChildLink>::empty()) =~= Seq::empty());
        assert(content@.node == writable_dir_view(Seq::empty()));
        self.put_node(cur, content);
        let root = String::from_str("/");
        proof {
            reveal_strlit("/");
            assert(root@ =~= root_name());
        }
        self.put_name(cur, root);
        self.put_shadow(cur, Some(1));
        let ghost s1 = self@;
        let ghost fuel = choose|fuel: nat| (#[trigger] clone_fs_spec(s1, cur, ses_id, fuel, now)) is Some;
        proof {
            lemma_clone_keeps(s1, cur, ses_id, fuel, now);
        }
        self.clone_fs(cur, ses_id, Ghost(fuel), now);
    }

    /// Looks `name` up in directory `parent` for session `ses` (`None` where
    /// the requesting process's session could not be read), at time `now`.
    pub fn lookup(&mut self, ses: Option<i32>, parent: u64, name: &String, now: SystemTime) -> (res:
        EntryReply)
        requires
            lookup_spec(old(self)@, ses, parent, name@, now) is Some,
        ensures
            lookup_spec(old(self)@, ses, parent, name@, now) == Some((final(self)@, res)),
    {
        if is_probe(name) {
            return EntryReply::Error(FsError::NotFound);
        }
        let ses_id = match ses {
            None => {
                return EntryReply::NoReply;
            },
            Some(x) => x,
        };
        if !self.session_id_mapping.contains_key(&ses_id) {
            if ses_id == 0 {
                return EntryReply::NoReply;
            }
            self.start_session(ses_id, now);
        }
        let writable_root_instance = *self.session_id_mapping.get(&ses_id).unwrap();
        if parent == 1 {
            let readable_inode = self.check_readable_path(parent, name);
            let writable_inode = self.check_writable_path(writable_root_instance, name);
            if writable_inode.is_some() && writable_inode.unwrap() != 0 {
                self.entry_reply(writable_inode.unwrap(), 0)
            } else if writable_inode.is_none() && readable_inode.is_some() {
                self.entry_reply(readable_inode.unwrap(), 1)
            } else {
                EntryReply::Error(FsError::NotFound)
            }
        } else {
            let shadow = match self.writable_to_readable_inode.get(&parent) {
                Some(r) => *r,
                None => None,
            };
            let readable_inode = match shadow {
                Some(readable_inode_val) => self.check_readable_path(readable_inode_val, name),
                None => None,
            };
            let writable_inode = self.check_writable_path(parent, name);
            if writable_inode.is_some() && writable_inode.unwrap() != 0 {
                self.entry_reply(writable_inode.unwrap(), 1)
            } else if readable_inode.is_some() && writable_inode.is_none() {
                let r = readable_inode.unwrap();
                let reply = self.entry_reply(r, 1);
                let is_file = self.node_ref(r).unwrap().node_kind.children_of_directory().is_none();
                if is_file {
                    self.set_writable_parent(r, ses_id, parent);
                }
                reply
            } else {
                EntryReply::Error(FsError::NotFound)
            }
        }
    }
}

} // verus!
