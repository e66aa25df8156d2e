//! Building a session's writable layer: every read-only directory under a
//! writable directory's shadow gets a writable twin of its own.

use crate::attr::{fresh_attr, make_attribute};
use crate::node::{copy_links, links_view, writable_dir_view, ChildLink, InodeContent, InodeView, Node};
use crate::state::{FsView, UnionFs};
use std::collections::HashMap;
use std::time::SystemTime;
use vstd::prelude::*;

verus! {

/// The first pass over the entries `kids` of a read-only directory: each
/// entry's inode records `w` as session `ses`'s writable parent. Gives the
/// state after it and the directories among the entries, in order; `None`
/// where an entry names no inode.
pub open spec fn mark_children(s: FsView, kids: Seq<(Seq<char>, u64)>, w: u64, ses: i32) -> Option<
    (FsView, Seq<u64>),
>
    decreases kids.len(),
{
    if kids.len() == 0 {
        Some((s, Seq::empty()))
    } else {
        match mark_children(s, kids.drop_last(), w, ses) {
            None => None,
            Some((s1, dirs)) => {
                let ii = kids.last().1;
                if !s1.nodes.contains_key(ii) {
                    None
                } else {
                    let dirs1 = if s1.nodes[ii].node.is_dir() {
                        dirs.push(ii)
                    } else {
                        dirs
                    };
                    Some((s1.with_writable_parent(ii, ses, w), dirs1))
                }
            },
        }
    }
}

/// The writable twin, made at `now`, of read-only directory `d` inside
/// writable directory `w`: the next inode, named as `d` is, entered in `w`
/// under that name, shadowing `d`, and then filled in turn. `None` where the
/// counter is exhausted, `w` is no directory, `d` has no name, or the filling
/// fails or needs more than `fuel` levels.
pub open spec fn clone_one(s: FsView, d: u64, w: u64, ses: i32, fuel: nat, now: SystemTime) -> Option<
    FsView,
>
    decreases fuel, 0nat, 0nat,
{
    if s.cur_inode == u64::MAX {
        None
    } else {
        let s1 = s.bumped();
        let c = s1.cur_inode;
        if !s1.is_dir_at(w) || !s1.names.contains_key(d) || fuel == 0 {
            None
        } else {
            let nm = s1.names[d];
            let s2 = s1.with_child(w, nm, c).with_name(c, nm).with_shadow(c, Some(d)).with_node(
                c,
                InodeView { attr: fresh_attr(c, true, now), node: writable_dir_view(Seq::empty()) },
            );
            clone_fs_spec(s2, c, ses, (fuel - 1) as nat, now)
        }
    }
}

/// Writable twins, one after another, of the read-only directories `dirs`
/// inside writable directory `w`.
pub open spec fn clone_dirs(
    s: FsView,
    dirs: Seq<u64>,
    w: u64,
    ses: i32,
    fuel: nat,
    now: SystemTime,
) -> Option<FsView>
    decreases fuel, 1nat, dirs.len(),
{
    if dirs.len() == 0 {
        Some(s)
    } else {
        match clone_dirs(s, dirs.drop_last(), w, ses, fuel, now) {
            None => None,
            Some(s1) => clone_one(s1, dirs.last(), w, ses, fuel, now),
        }
    }
}

/// The state after writable directory `w` of session `ses` is filled from the
/// read-only directory it shadows: its entries record `w`, and each of its
/// directories gets a writable twin in `w`, recursively, all made at `now`.
/// `None` where it cannot complete (`w` shadows no directory, an entry
/// names no inode, the counter runs out) or needs more than `fuel` levels.
pub open spec fn clone_fs_spec(s: FsView, w: u64, ses: i32, fuel: nat, now: SystemTime) -> Option<
    FsView,
>
    decreases fuel, 2nat, 0nat,
{
    if !s.w2r.contains_key(w) {
        None
    } else {
        match s.w2r[w] {
            None => None,
            Some(r) => if !s.is_dir_at(r) {
                None
            } else {
                match mark_children(s, s.children_at(r), w, ses) {
                    None => None,
                    Some((s1, dirs)) => clone_dirs(s1, dirs, w, ses, fuel, now),
                }
            },
        }
    }
}

/// The filling of `w` completes for some depth bound.
pub open spec fn clone_completes(s: FsView, w: u64, ses: i32, now: SystemTime) -> bool {
    exists|fuel: nat| (#[trigger] clone_fs_spec(s, w, ses, fuel, now)) is Some
}

/// The state after the filling of `w`, where it completes.
pub open spec fn clone_result(s: FsView, w: u64, ses: i32, now: SystemTime) -> FsView {
    clone_fs_spec(s, w, ses, choose|fuel: nat| (#[trigger] clone_fs_spec(s, w, ses, fuel, now)) is Some, now)->Some_0
}

proof fn lemma_mark_prefix(s: FsView, kids: Seq<(Seq<char>, u64)>, w: u64, ses: i32, i: int)
    requires
        mark_children(s, kids, w, ses) is Some,
        0 <= i <= kids.len(),
    ensures
        mark_children(s, kids.take(i), w, ses) is Some,
    decreases kids.len(),
{
    if i == kids.len() {
        assert(kids.take(i) =~= kids);
    } else {
        assert(kids.drop_last().take(i) =~= kids.take(i));
        lemma_mark_prefix(s, kids.drop_last(), w, ses, i);
    }
}

proof fn lemma_clone_dirs_prefix(
    s: FsView,
    dirs: Seq<u64>,
    w: u64,
    ses: i32,
    fuel: nat,
    now: SystemTime,
    i: int,
)
    requires
        clone_dirs(s, dirs, w, ses, fuel, now) is Some,
        0 <= i <= dirs.len(),
    ensures
        clone_dirs(s, dirs.take(i), w, ses, fuel, now) is Some,
    decreases dirs.len(),
{
    if i == dirs.len() {
        assert(dirs.take(i) =~= dirs);
    } else {
        assert(dirs.drop_last().take(i) =~= dirs.take(i));
        lemma_clone_dirs_prefix(s, dirs.drop_last(), w, ses, fuel, now, i);
    }
}

/// The first pass keeps the sessions and the inode counter.
pub proof fn lemma_mark_keeps(s: FsView, kids: Seq<(Seq<char>, u64)>, w: u64, ses: i32)
    requires
        mark_children(s, kids, w, ses) is Some,
    ensures
        mark_children(s, kids, w, ses)->Some_0.0.sessions == s.sessions,
        mark_children(s, kids, w, ses)->Some_0.0.cur_inode == s.cur_inode,
    decreases kids.len(),
{
    if kids.len() > 0 {
        lemma_mark_keeps(s, kids.drop_last(), w, ses);
    }
}

/// Filling a writable directory keeps the sessions and never moves the
/// inode counter back.
pub proof fn lemma_clone_keeps(s: FsView, w: u64, ses: i32, fuel: nat, now: SystemTime)
    requires
        clone_fs_spec(s, w, ses, fuel, now) is Some,
    ensures
        clone_fs_spec(s, w, ses, fuel, now)->Some_0.sessions == s.sessions,
        clone_fs_spec(s, w, ses, fuel, now)->Some_0.cur_inode >= s.cur_inode,
    decreases fuel, 2nat, 0nat,
{
    let r = s.w2r[w]->Some_0;
    lemma_mark_keeps(s, s.children_at(r), w, ses);
    let (s1, dirs) = mark_children(s, s.children_at(r), w, ses)->Some_0;
    lemma_clone_dirs_keeps(s1, dirs, w, ses, fuel, now);
}

/// Filling the twins of several directories keeps the sessions and never
/// moves the inode counter back.
pub proof fn lemma_clone_dirs_keeps(s: FsView, dirs: Seq<u64>, w: u64, ses: i32, fuel: nat, now: SystemTime)
    requires
        clone_dirs(s, dirs, w, ses, fuel, now) is Some,
    ensures
        clone_dirs(s, dirs, w, ses, fuel, now)->Some_0.sessions == s.sessions,
        clone_dirs(s, dirs, w, ses, fuel, now)->Some_0.cur_inode >= s.cur_inode,
    decreases fuel, 1nat, dirs.len(),
{
    if dirs.len() > 0 {
        lemma_clone_dirs_keeps(s, dirs.drop_last(), w, ses, fuel, now);
        let s1 = clone_dirs(s, dirs.drop_last(), w, ses, fuel, now)->Some_0;
        lemma_clone_one_keeps(s1, dirs.last(), w, ses, fuel, now);
    }
}

/// Making one twin keeps the sessions and never moves the inode counter
/// back.
pub proof fn lemma_clone_one_keeps(s: FsView, d: u64, w: u64, ses: i32, fuel: nat, now: SystemTime)
    requires
        clone_one(s, d, w, ses, fuel, now) is Some,
    ensures
        clone_one(s, d, w, ses, fuel, now)->Some_0.sessions == s.sessions,
        clone_one(s, d, w, ses, fuel, now)->Some_0.cur_inode >= s.cur_inode,
    decreases fuel, 0nat, 0nat,
{
    let s1 = s.bumped();
    let c = s1.cur_inode;
    let nm = s1.names[d];
    let s2 = s1.with_child(w, nm, c).with_name(c, nm).with_shadow(c, Some(d)).with_node(
        c,
        InodeView { attr: fresh_attr(c, true, now), node: writable_dir_view(Seq::empty()) },
    );
    lemma_clone_keeps(s2, c, ses, (fuel - 1) as nat, now);
}

impl UnionFs {
    /// Fills writable directory `writable_root_inode` of session `ses_id` from
    /// the read-only directory it shadows, as `clone_fs_spec` says.
    pub(crate) fn clone_fs(
        &mut self,
        writable_root_inode: u64,
        ses_id: i32,
        Ghost(fuel): Ghost<nat>,
        now: SystemTime,
    )
        requires
            clone_fs_spec(old(self)@, writable_root_inode, ses_id, fuel, now) is Some,
        ensures
            final(self)@ == clone_fs_spec(old(self)@, writable_root_inode, ses_id, fuel, now)->Some_0,
        decreases fuel,
    {
        let w = writable_root_inode;
        let ghost s0 = self@;
        let readable_root = self.writable_to_readable_inode.get(&w).unwrap().unwrap();
        let kids = copy_links(
            self.node_ref(readable_root).unwrap().node_kind.children_of_directory().unwrap(),
        );
        let ghost kv = links_view(kids@);
        assert(kv == s0.children_at(readable_root));
        let mut dirs: Vec<u64> = Vec::new();
        let mut i: usize = 0;
        while i < kids.len()
            invariant
                i <= kids.len(),
                kv == links_view(kids@),
                mark_children(s0, kv, w, ses_id) is Some,
                mark_children(s0, kv.take(i as int), w, ses_id) == Some((self@, dirs@)),
            decreases kids.len() - i,
        {
            let ii = kids[i].inode;
            proof {
                lemma_mark_prefix(s0, kv, w, ses_id, i + 1);
                assert(kv.take(i + 1).drop_last() =~= kv.take(i as int));
                assert(kv.take(i + 1).last() == kv[i as int]);
            }
            let is_dir = self.node_ref(ii).unwrap().node_kind.children_of_directory().is_some();
            if is_dir {
                dirs.push(ii);
            }
            self.set_writable_parent(ii, ses_id, w);
            i = i + 1;
        }
        assert(kv.take(i as int) =~= kv);
        let ghost s1 = self@;
        let ghost dv = dirs@;
        let mut j: usize = 0;
        while j < dirs.len()
            invariant
                j <= dirs.len(),
                dv == dirs@,
                clone_dirs(s1, dv, w, ses_id, fuel, now) is Some,
                clone_dirs(s1, dv.take(j as int), w, ses_id, fuel, now) == Some(self@),
            decreases dirs.len() - j,
        {
            let d = dirs[j];
            proof {
                lemma_clone_dirs_prefix(s1, dv, w, ses_id, fuel, now, j + 1);
                assert(dv.take(j + 1).drop_last() =~= dv.take(j as int));
                assert(dv.take(j + 1).last() == dv[j as int]);
                assert(clone_dirs(s1, dv.take(j + 1), w, ses_id, fuel, now) == clone_one(
                    self@,
                    d,
                    w,
                    ses_id,
                    fuel,
                    now,
                ));
                assert(clone_one(self@, d, w, ses_id, fuel, now) is Some);
            }
            let c = self.alloc_inode();
            let name = self.name_of(d).unwrap();
            self.set_dir_child(w, name.clone(), c);
            self.put_name(c, name);
            self.put_shadow(c, Some(d));
            let content = InodeContent {
                inode_attributes: make_attribute(c, true, now),
                node_kind: Node::Directory {
                    hash_of_children: Vec::new(),
                    writable_parent_instance: HashMap::new(),
                    is_this_in_readable_path: false,
                    is_this_in_writable_path: true,
                },
            };
            assert(links_view(Seq::<ChildLink>::empty()) =~= Seq::empty());
            assert(content@.node == writable_dir_view(Seq::empty()));
            self.put_node(c, content);
            self.clone_fs(c, ses_id, Ghost((fuel - 1) as nat), now);
            j = j + 1;
        }
        assert(dv.take(j as int) =~= dv);
    }
}

} // verus!
