//! Tests, made before a request is served, of whether the request can be
//! served at all: each says exactly when the operation's precondition holds.
//! The server stops where a test fails.

use crate::create::{create_spec, mkdir_spec, mknod_spec, root_pair_ok};
use crate::lookup::{is_probe_name, lookup_spec, searchable, with_new_session};
use crate::handed::children_handed_out;
use crate::walk::lemma_new_session_walk;
use crate::node::{lemma_set_child_other, lemma_set_child_same};
use crate::readdir::{listed_dir, readdir_ok};
use crate::remove::{delete_entry, hide_readable, rmdir_spec, unlink_spec};
use crate::rename::{payload_ok, rename_spec};
use crate::scan::{count_entries, instantiate_spec, instantiate_tree_spec, lemma_tree_fits, ScannedKind, ScannedTree};
use crate::state::UnionFs;
use crate::write::write_spec;
use std::time::SystemTime;
use vstd::prelude::*;

verus! {

broadcast use vstd::std_specs::hash::group_hash_axioms;

impl UnionFs {
    /// Whether `ino` is a directory.
    pub fn is_dir_node(&self, ino: u64) -> (res: bool)
        ensures
            res == self@.is_dir_at(ino),
    {
        match self.node_ref(ino) {
            Some(c) => c.node_kind.children_of_directory().is_some(),
            None => false,
        }
    }

    /// Whether `ino` is absent or a directory.
    fn searchable_node(&self, ino: u64) -> (res: bool)
        ensures
            res == searchable(self@, ino),
    {
        match self.node_ref(ino) {
            Some(c) => c.node_kind.children_of_directory().is_some(),
            None => true,
        }
    }

    /// The inode `name` names in `dir`, or `None` where `dir` is absent;
    /// `dir` must be absent or a directory.
    fn child_in_node(&self, dir: u64, name: &String) -> (res: Option<u64>)
        requires
            searchable(self@, dir),
        ensures
            res == self@.child_in(dir, name@),
    {
        match self.node_ref(dir) {
            Some(_) => self.dir_child(dir, name),
            None => None,
        }
    }

    /// Whether `read` can serve inode `ino` from `offset`.
    pub fn accepts_read(&self, ino: u64, offset: u64) -> (ok: bool)
        ensures
            ok == (self@.is_file_at(ino) && offset <= self@.nodes[ino].node.content().len()),
    {
        match self.node_ref(ino) {
            Some(c) => match c.node_kind.get_file_content() {
                Some(b) => offset <= b.len() as u64,
                None => false,
            },
            None => false,
        }
    }

    /// Whether a scanned entry can be added under `parent`.
    pub fn accepts_instantiate(&self, parent: u64, name: &String, kind: &ScannedKind, now: SystemTime) -> (ok:
        bool)
        ensures
            ok == instantiate_spec(self@, parent, name@, *kind, now) is Some,
    {
        self.curr_inode_val < u64::MAX && self.searchable_node(parent)
    }

    /// Whether the scanned `entries` of the directory at `dir_path` can be
    /// added under `parent`: `parent` is a directory that the counter has
    /// passed, and the counter can move on once for each entry. Exact where
    /// `parent` is such a directory.
    pub fn accepts_instantiate_tree(
        &self,
        parent: u64,
        dir_path: &str,
        entries: &Vec<ScannedTree>,
        now: SystemTime,
    ) -> (ok: bool)
        ensures
            ok ==> instantiate_tree_spec(self@, parent, dir_path@, entries@, now) is Some,
            self@.is_dir_at(parent) && parent <= self@.cur_inode ==> ok == instantiate_tree_spec(
                self@,
                parent,
                dir_path@,
                entries@,
                now,
            ) is Some,
    {
        if !self.is_dir_node(parent) || parent > self.curr_inode_val {
            return false;
        }
        proof {
            lemma_tree_fits(self@, parent, dir_path@, entries@, now);
        }
        match count_entries(entries) {
            Some(k) => k <= u64::MAX - self.curr_inode_val,
            None => false,
        }
    }

    /// Whether `mknod` can make `name` in `parent`.
    pub fn accepts_mknod(&self, parent: u64, name: &String, now: SystemTime) -> (ok: bool)
        ensures
            ok == mknod_spec(self@, parent, name@, now) is Some,
    {
        self.curr_inode_val < u64::MAX && self.is_dir_node(parent)
    }

    /// Whether the read-only root and session `ses`'s writable root are two
    /// directories.
    fn root_pair(&self, ses: i32) -> (ok: bool)
        ensures
            ok == root_pair_ok(self@, ses),
    {
        match self.session_id_mapping.get(&ses) {
            Some(wr) => *wr != 1 && self.is_dir_node(*wr) && self.is_dir_node(1),
            None => false,
        }
    }

    /// Whether `mkdir` can be served.
    pub fn accepts_mkdir(&self, ses: Option<i32>, parent: u64, name: &String, now: SystemTime) -> (ok:
        bool)
        ensures
            ok == mkdir_spec(self@, ses, parent, name@, now) is Some,
    {
        if self.curr_inode_val == u64::MAX {
            return false;
        }
        if parent == 1 && ses.is_some() {
            self.root_pair(ses.unwrap())
        } else {
            self.is_dir_node(parent)
        }
    }

    /// Whether `create` can be served.
    pub fn accepts_create(&self, ses: Option<i32>, parent: u64, name: &String, now: SystemTime) -> (ok:
        bool)
        ensures
            ok == create_spec(self@, ses, parent, name@, now) is Some,
    {
        let made = if parent == 1 && ses.is_some() {
            if !self.root_pair(ses.unwrap()) {
                return false;
            }
            let wr = *self.session_id_mapping.get(&ses.unwrap()).unwrap();
            self.dir_child(1, name).is_some() && self.dir_child(wr, name).is_some()
        } else {
            if !self.is_dir_node(parent) {
                return false;
            }
            self.dir_child(parent, name).is_none()
        };
        !made || self.curr_inode_val < u64::MAX
    }

    /// Whether entry `name` of `dir` can be deleted.
    fn accepts_delete(&self, dir: u64, name: &String) -> (ok: bool)
        ensures
            ok == delete_entry(self@, dir, name@) is Some,
    {
        if !self.is_dir_node(dir) {
            return false;
        }
        match self.dir_child(dir, name) {
            Some(c) => self.node_ref(c).is_some() && self.inode_to_string_mapping.contains_key(&c),
            None => false,
        }
    }

    /// Whether `rmdir` can be served.
    pub fn accepts_rmdir(&self, ses: Option<i32>, parent: u64, name: &String) -> (ok: bool)
        ensures
            ok == rmdir_spec(self@, ses, parent, name@) is Some,
    {
        if parent == 1 {
            if !self.is_dir_node(1) || self.dir_child(1, name).is_none() {
                return false;
            }
            match ses {
                None => true,
                Some(x) => match self.session_id_mapping.get(&x) {
                    Some(wr) => self.accepts_delete(*wr, name),
                    None => false,
                },
            }
        } else {
            self.accepts_delete(parent, name)
        }
    }

    /// Whether read-only file `name` of `dir` can be hidden from `ses`.
    fn accepts_hide(&self, dir: u64, name: &String, ses: i32) -> (ok: bool)
        ensures
            ok == hide_readable(self@, dir, name@, ses) is Some,
    {
        if !self.is_dir_node(dir) {
            return false;
        }
        match self.dir_child(dir, name) {
            None => false,
            Some(rf) => match self.node_ref(rf) {
                None => false,
                Some(c) => match &c.node_kind {
                    crate::node::Node::Directory { .. } => false,
                    crate::node::Node::File { writable_parent_instance, .. } => {
                        match writable_parent_instance.get(&ses) {
                            None => false,
                            Some(wp) => *wp != dir && self.is_dir_node(*wp),
                        }
                    },
                },
            },
        }
    }

    /// Whether `unlink` can be served.
    pub fn accepts_unlink(&self, ses: Option<i32>, parent: u64, name: &String) -> (ok: bool)
        ensures
            ok == unlink_spec(self@, ses, parent, name@) is Some,
    {
        if !self.is_dir_node(parent) {
            return false;
        }
        let d = match self.dir_child(parent, name) {
            Some(v) => v,
            None => match self.writable_to_readable_inode.get(&parent) {
                Some(Some(r)) => *r,
                _ => {
                    return false;
                },
            },
        };
        match self.node_ref(d) {
            None => false,
            Some(c) => {
                if c.node_kind.is_it_present_in_writable_path().unwrap() {
                    true
                } else {
                    match ses {
                        None => true,
                        Some(x) => if parent == 1 {
                            self.accepts_hide(parent, name, x)
                        } else {
                            self.accepts_hide(d, name, x)
                        },
                    }
                }
            },
        }
    }

    /// Whether the payload of `ino` can be read while `locked` changes.
    fn payload_readable(&self, ino: u64, locked: u64) -> (ok: bool)
        ensures
            ok == payload_ok(self@, ino, locked),
    {
        match self.node_ref(ino) {
            None => false,
            Some(c) => c.node_kind.children_of_directory().is_none() || ino != locked,
        }
    }

    /// Whether `rename` can be served.
    pub fn accepts_rename(
        &self,
        ses: Option<i32>,
        parent: u64,
        name: &String,
        newparent: u64,
        newname: &String,
        now: SystemTime,
    ) -> (ok: bool)
        ensures
            ok == rename_spec(self@, ses, parent, name@, newparent, newname@, now) is Some,
    {
        let ghost s = self@;
        if parent == 1 && ses.is_some() {
            let x = ses.unwrap();
            let wp = match self.session_id_mapping.get(&x) {
                Some(wp) => *wp,
                None => {
                    return false;
                },
            };
            if !self.is_dir_node(wp) {
                return false;
            }
            let found = self.dir_child(wp, name);
            if newparent == 1 {
                if found.is_none() && self.curr_inode_val == u64::MAX {
                    return false;
                }
                if wp == 1 || !self.is_dir_node(1) {
                    return false;
                }
                match self.dir_child(1, name) {
                    None => false,
                    Some(child) => self.payload_readable(child, wp),
                }
            } else {
                match found {
                    Some(ci) => {
                        if !self.payload_readable(ci, wp) || self.curr_inode_val == u64::MAX {
                            return false;
                        }
                        if newparent == ci || !self.is_dir_node(newparent) {
                            return false;
                        }
                        let existing = if newparent == wp && *newname == *name {
                            Some(0)
                        } else {
                            self.dir_child(newparent, newname)
                        };
                        proof {
                            if newparent == wp {
                                lemma_set_child_same(s.children_at(wp), name@, 0);
                                if newname@ != name@ {
                                    lemma_set_child_other(s.children_at(wp), name@, 0, newname@);
                                }
                            }
                        }
                        let live = existing.is_some() && existing.unwrap() != 0;
                        live || self.curr_inode_val < u64::MAX - 1
                    },
                    None => {
                        if wp == 1 || !self.is_dir_node(1) {
                            return false;
                        }
                        let ci = match self.dir_child(1, name) {
                            None => {
                                return false;
                            },
                            Some(ci) => ci,
                        };
                        if !self.payload_readable(ci, wp) || !self.is_dir_node(newparent) {
                            return false;
                        }
                        let existing = if newparent == wp && *newname == *name {
                            Some(0)
                        } else {
                            self.dir_child(newparent, newname)
                        };
                        proof {
                            if newparent == wp {
                                lemma_set_child_same(s.children_at(wp), name@, 0);
                                if newname@ != name@ {
                                    lemma_set_child_other(s.children_at(wp), name@, 0, newname@);
                                }
                            }
                        }
                        let live = existing.is_some() && existing.unwrap() != 0;
                        live || self.curr_inode_val < u64::MAX
                    },
                }
            }
        } else if parent != 0 && parent != newparent {
            if !self.is_dir_node(parent) {
                return false;
            }
            match self.dir_child(parent, name) {
                Some(v) => self.payload_readable(v, parent),
                None => true,
            }
        } else {
            true
        }
    }

    /// Whether `write` can be served.
    pub fn accepts_write(&self, ses: Option<i32>, ino: u64, offset: u64, data: &[u8], now: SystemTime) -> (ok:
        bool)
        ensures
            ok == write_spec(self@, ses, ino, offset, data@, now) is Some,
    {
        let ghost s = self@;
        let off = #[verifier::truncate] (offset as usize);
        let c = match self.node_ref(ino) {
            None => {
                return false;
            },
            Some(c) => c,
        };
        let readable = c.node_kind.is_it_present_in_readable_path().unwrap();
        let writable = c.node_kind.is_it_present_in_writable_path().unwrap();
        let bytes = match c.node_kind.get_file_content() {
            None => {
                return !(readable || writable);
            },
            Some(b) => b,
        };
        if readable && !writable {
            if self.curr_inode_val == u64::MAX || !self.inode_to_string_mapping.contains_key(&ino) {
                return false;
            }
            let cur = self.curr_inode_val + 1;
            let doubled = match ses {
                None => false,
                Some(x) => {
                    if ino == cur {
                        return false;
                    }
                    let wp = match &c.node_kind {
                        crate::node::Node::File { writable_parent_instance, .. } => {
                            match writable_parent_instance.get(&x) {
                                None => {
                                    return false;
                                },
                                Some(wp) => *wp,
                            }
                        },
                        crate::node::Node::Directory { .. } => {
                            return false;
                        },
                    };
                    if wp == cur || !self.is_dir_node(wp) {
                        return false;
                    }
                    true
                },
            };
            let len: u128 = if doubled {
                (bytes.len() as u128) * 2
            } else {
                bytes.len() as u128
            };
            (data.len() == 0 || (off as u128) < len) && (data.len() as u128) <= 0xffff_ffff
        } else if writable {
            data.len() == 0 || off <= bytes.len()
        } else {
            true
        }
    }

    /// Whether `readdir` can list `ino` for `ses`.
    pub fn accepts_readdir(&self, ses: Option<i32>, ino: u64) -> (ok: bool)
        ensures
            ok == readdir_ok(self@, ses, ino),
    {
        let ghost s = self@;
        let mut w = ino;
        if ino == 1 {
            if let Some(x) = ses {
                if let Some(val) = self.session_id_mapping.get(&x) {
                    w = *val;
                }
            }
        }
        assert(w == listed_dir(s, ses, ino));
        let links = match self.node_ref(w) {
            None => {
                return false;
            },
            Some(c) => match c.node_kind.children_of_directory() {
                None => {
                    return false;
                },
                Some(links) => links,
            },
        };
        let ghost kids = crate::node::links_view(links@);
        let mut i: usize = 0;
        while i < links.len()
            invariant
                i <= links.len(),
                s == self@,
                kids == crate::node::links_view(links@),
                kids == s.children_at(w),
                w == listed_dir(s, ses, ino),
                forall|k: int| 0 <= k < i && (#[trigger] kids[k]).1 != 0 ==> s.nodes.contains_key(kids[k].1),
            decreases links.len() - i,
        {
            let v = links[i].inode;
            if v != 0 && self.node_ref(v).is_none() {
                assert(kids[i as int].1 == v);
                assert(s.children_at(w)[i as int] == kids[i as int]);
                return false;
            }
            i = i + 1;
        }
        assert forall|k: int|
            0 <= k < s.children_at(w).len() && (#[trigger] s.children_at(w)[k]).1 != 0 implies s.nodes.contains_key(
            s.children_at(w)[k].1,
        ) by {
            assert(kids[k] == s.children_at(w)[k]);
        }
        match self.writable_to_readable_inode.get(&w) {
            Some(Some(r)) => self.is_dir_node(*r),
            _ => true,
        }
    }

    /// Whether `lookup` can be served, where that can be told beforehand:
    /// `None` for a session seen for the first time, whose writable layer
    /// would first be built.
    pub fn accepts_lookup(&self, ses: Option<i32>, parent: u64, name: &String, now: SystemTime) -> (res:
        Option<bool>)
        ensures
            match res {
                Some(ok) => ok == lookup_spec(self@, ses, parent, name@, now) is Some,
                None => ses is Some && !self@.sessions.contains_key(ses->0) && ses->0 != 0
                    && !is_probe_name(name@),
            },
    {
        if crate::lookup::is_probe(name) {
            return Some(true);
        }
        let x = match ses {
            None => {
                return Some(true);
            },
            Some(x) => x,
        };
        let wr = match self.session_id_mapping.get(&x) {
            None => {
                if x == 0 {
                    return Some(true);
                }
                return None;
            },
            Some(wr) => *wr,
        };
        if parent == 1 {
            if !self.searchable_node(1) || !self.searchable_node(wr) {
                return Some(false);
            }
            let rd = self.child_in_node(1, name);
            let wd = self.child_in_node(wr, name);
            if wd.is_some() && wd.unwrap() != 0 {
                Some(self.node_ref(wd.unwrap()).is_some())
            } else if wd.is_none() && rd.is_some() {
                Some(self.node_ref(rd.unwrap()).is_some())
            } else {
                Some(true)
            }
        } else {
            let shadow = match self.writable_to_readable_inode.get(&parent) {
                Some(r) => *r,
                None => None,
            };
            if let Some(rp) = shadow {
                if !self.searchable_node(rp) {
                    return Some(false);
                }
            }
            if !self.searchable_node(parent) {
                return Some(false);
            }
            let rd = match shadow {
                Some(rp) => self.child_in_node(rp, name),
                None => None,
            };
            let wd = self.child_in_node(parent, name);
            if wd.is_some() && wd.unwrap() != 0 {
                Some(self.node_ref(wd.unwrap()).is_some())
            } else if rd.is_some() && wd.is_none() {
                Some(self.node_ref(rd.unwrap()).is_some())
            } else {
                Some(true)
            }
        }
    }

    /// Whether session `ses`'s writable layer can be built at time `now`,
    /// in a state whose directory entries name handed-out numbers (every
    /// state a new filesystem reaches: see `lemma_reachable_inv`).
    pub fn accepts_start_session(&self, ses: i32, now: SystemTime) -> (ok: bool)
        requires
            children_handed_out(self@),
            self@.cur_inode >= 1,
        ensures
            ok == with_new_session(self@, ses, now) is Some,
    {
        proof {
            lemma_new_session_walk(self@, ses, now);
        }
        if self.curr_inode_val == u64::MAX {
            return false;
        }
        self.walk_readable(1, u64::MAX - self.curr_inode_val - 1).is_some()
    }
}

} // verus!
