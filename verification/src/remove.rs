//! Removing names. A removed name stays in its writable directory, naming
//! inode 0, so that it hides the read-only entry of the same name.

use crate::state::{FsView, UnionFs};
use vstd::prelude::*;

verus! {

broadcast use vstd::std_specs::hash::group_hash_axioms;

/// The state after the entry `name` of writable directory `dir` is marked
/// deleted and the inode it named is dropped with its name. `None` where the
/// entry, the inode or its name is missing.
pub open spec fn delete_entry(s: FsView, dir: u64, name: Seq<char>) -> Option<FsView> {
    if !s.is_dir_at(dir) || s.child_in(dir, name) is None {
        None
    } else {
        let c = s.child_in(dir, name)->0;
        let s1 = s.with_child(dir, name, 0);
        if !s1.nodes.contains_key(c) || !s1.names.contains_key(c) {
            None
        } else {
            Some(s1.without_node(c).without_name(c))
        }
    }
}

/// The state after session `ses` removes directory `name` from `parent`.
/// In the read-only root the name must stand in the root; the session's
/// writable root loses it (nothing happens where the session is unknown to
/// the caller). Elsewhere `parent` loses it. `None` where the request
/// cannot be served.
pub open spec fn rmdir_spec(s: FsView, ses: Option<i32>, parent: u64, name: Seq<char>) -> Option<FsView> {
    if parent == 1 {
        if !s.is_dir_at(1) || s.child_in(1, name) is None {
            None
        } else {
            match ses {
                None => Some(s),
                Some(x) => if !s.sessions.contains_key(x) {
                    None
                } else {
                    delete_entry(s, s.sessions[x], name)
                },
            }
        }
    } else {
        delete_entry(s, parent, name)
    }
}

/// The state after session `ses` hides the read-only file `name` of
/// directory `dir`: the writable directory recorded in that file for the
/// session gets `name` marked deleted. `None` where the request cannot be served.
pub open spec fn hide_readable(s: FsView, dir: u64, name: Seq<char>, ses: i32) -> Option<FsView> {
    if !s.is_dir_at(dir) || s.child_in(dir, name) is None {
        None
    } else {
        let rf = s.child_in(dir, name)->0;
        if !s.nodes.contains_key(rf) {
            None
        } else {
            let n = s.nodes[rf].node;
            if n.is_dir() || !n.writable_parent().contains_key(ses) {
                None
            } else {
                let wp = n.writable_parent()[ses];
                if !s.is_dir_at(wp) || wp == dir {
                    None
                } else {
                    Some(s.with_child(wp, name, 0))
                }
            }
        }
    }
}

/// The state after session `ses` removes file `name` from `parent`. The
/// inode is the one `name` names in `parent` or, where `parent` lacks the
/// name, the read-only directory `parent` shadows. A writable inode is
/// dropped with its name and `name` is marked deleted in `parent`.
/// Otherwise the read-only file is hidden from the session: found in the
/// read-only root where `parent` is the root, in that inode elsewhere.
/// `None` where the request cannot be served.
pub open spec fn unlink_spec(s: FsView, ses: Option<i32>, parent: u64, name: Seq<char>) -> Option<FsView> {
    if !s.is_dir_at(parent) {
        None
    } else {
        let found = s.child_in(parent, name);
        let d = match found {
            Some(v) => Some(v),
            None => if s.w2r.contains_key(parent) {
                s.w2r[parent]
            } else {
                None
            },
        };
        match d {
            None => None,
            Some(d) => if !s.nodes.contains_key(d) {
                None
            } else if s.nodes[d].node.writable() {
                let s1 = s.with_child(parent, name, 0);
                Some(s1.without_node(d).without_name(d))
            } else {
                match ses {
                    None => Some(s),
                    Some(x) => if parent == 1 {
                        hide_readable(s, parent, name, x)
                    } else {
                        hide_readable(s, d, name, x)
                    },
                }
            },
        }
    }
}

impl UnionFs {
    /// Marks `name` deleted in `dir` and drops the inode it named.
    fn delete_in(&mut self, dir: u64, name: String)
        requires
            delete_entry(old(self)@, dir, name@) is Some,
        ensures
            delete_entry(old(self)@, dir, name@) == Some(final(self)@),
    {
        let c = self.dir_child(dir, &name).unwrap();
        self.set_dir_child(dir, name, 0);
        self.drop_node(c);
        self.drop_name(c);
    }

    /// Hides read-only file `name` of `dir` from session `ses`.
    fn hide_in(&mut self, dir: u64, name: String, ses: i32)
        requires
            hide_readable(old(self)@, dir, name@, ses) is Some,
        ensures
            hide_readable(old(self)@, dir, name@, ses) == Some(final(self)@),
    {
        let rf = self.dir_child(dir, &name).unwrap();
        let wp = self.node_ref(rf).unwrap().node_kind.get_writable_parent_instance_for_files(
            ses,
        ).unwrap();
        self.set_dir_child(wp, name, 0);
    }

    /// Removes directory `name` from `parent` for session `ses`.
    pub fn rmdir(&mut self, ses: Option<i32>, parent: u64, name: String)
        requires
            rmdir_spec(old(self)@, ses, parent, name@) is Some,
        ensures
            rmdir_spec(old(self)@, ses, parent, name@) == Some(final(self)@),
    {
        if parent == 1 {
            if let Some(x) = ses {
                let writable_root_inode = *self.session_id_mapping.get(&x).unwrap();
                self.delete_in(writable_root_inode, name);
            }
        } else {
            self.delete_in(parent, name);
        }
    }

    /// Removes file `name` from `parent` for session `ses`.
    pub fn unlink(&mut self, ses: Option<i32>, parent: u64, name: String)
        requires
            unlink_spec(old(self)@, ses, parent, name@) is Some,
        ensures
            unlink_spec(old(self)@, ses, parent, name@) == Some(final(self)@),
    {
        let deleted_inode_val = match self.dir_child(parent, &name) {
            Some(v) => v,
            None => self.writable_to_readable_inode.get(&parent).unwrap().unwrap(),
        };
        let writable_path_presence = self.node_ref(
            deleted_inode_val,
        ).unwrap().node_kind.is_it_present_in_writable_path().unwrap();
        if writable_path_presence {
            self.set_dir_child(parent, name, 0);
            self.drop_node(deleted_inode_val);
            self.drop_name(deleted_inode_val);
        } else if parent == 1 {
            if let Some(x) = ses {
                self.hide_in(parent, name, x);
            }
        } else {
            if let Some(x) = ses {
                self.hide_in(deleted_inode_val, name, x);
            }
        }
    }
}

} // verus!
