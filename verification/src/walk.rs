//! Whether a new session's writable layer can be built, told beforehand by
//! a walk over the read-only directories that the building copies.

use crate::clone::{clone_completes, clone_dirs, clone_fs_spec, clone_one, mark_children};
use crate::lookup::with_new_session;
use crate::attr::fresh_attr;
use crate::handed::children_handed_out;
use crate::node::{writable_dir_view, InodeView};
use crate::state::{root_name, FsView, UnionFs};
use std::time::SystemTime;
use vstd::prelude::*;

verus! {

broadcast use vstd::std_specs::hash::group_hash_axioms;

/// Every entry of `kids` names an existing inode.
pub open spec fn kids_exist(s: FsView, kids: Seq<(Seq<char>, u64)>) -> bool {
    forall|i: int| 0 <= i < kids.len() ==> s.nodes.contains_key(#[trigger] kids[i].1)
}

/// The directories among the entries `kids`, in order.
pub open spec fn dir_list(s: FsView, kids: Seq<(Seq<char>, u64)>) -> Seq<u64>
    decreases kids.len(),
{
    if kids.len() == 0 {
        Seq::empty()
    } else {
        let prev = dir_list(s, kids.drop_last());
        if s.nodes[kids.last().1].node.is_dir() {
            prev.push(kids.last().1)
        } else {
            prev
        }
    }
}

/// The walk from read-only directory `r` with `budget` inode numbers left:
/// its entries must exist, and each of its directories must have a name, use
/// up one number and be walked in turn. The numbers left afterwards, or
/// `None` where the walk fails.
pub open spec fn walk(s: FsView, r: u64, budget: nat) -> Option<nat>
    decreases budget, 2nat, 0nat,
{
    if !s.is_dir_at(r) || !kids_exist(s, s.children_at(r)) {
        None
    } else {
        walk_dirs(s, dir_list(s, s.children_at(r)), budget)
    }
}

/// The walks of the directories `dirs`, one after another.
pub open spec fn walk_dirs(s: FsView, dirs: Seq<u64>, budget: nat) -> Option<nat>
    decreases budget, 1nat, dirs.len(),
{
    if dirs.len() == 0 {
        Some(budget)
    } else {
        match walk_dirs(s, dirs.drop_last(), budget) {
            None => None,
            Some(b1) => if b1 <= budget {
                walk_one(s, dirs.last(), b1)
            } else {
                None
            },
        }
    }
}

/// The walk of one directory `d` of a directory being walked.
pub open spec fn walk_one(s: FsView, d: u64, budget: nat) -> Option<nat>
    decreases budget, 0nat, 0nat,
{
    if budget == 0 || !s.names.contains_key(d) {
        None
    } else {
        walk(s, d, (budget - 1) as nat)
    }
}

/// A walk never gains numbers.
pub proof fn lemma_walk_bounded(s: FsView, r: u64, budget: nat)
    ensures
        walk(s, r, budget) matches Some(b) ==> b <= budget,
    decreases budget, 2nat, 0nat,
{
    if s.is_dir_at(r) && kids_exist(s, s.children_at(r)) {
        lemma_walk_dirs_bounded(s, dir_list(s, s.children_at(r)), budget);
    }
}

/// The walks of several directories never gain numbers.
pub proof fn lemma_walk_dirs_bounded(s: FsView, dirs: Seq<u64>, budget: nat)
    ensures
        walk_dirs(s, dirs, budget) matches Some(b) ==> b <= budget,
    decreases budget, 1nat, dirs.len(),
{
    if dirs.len() > 0 {
        lemma_walk_dirs_bounded(s, dirs.drop_last(), budget);
        match walk_dirs(s, dirs.drop_last(), budget) {
            Some(b1) => {
                if b1 <= budget {
                    lemma_walk_one_bounded(s, dirs.last(), b1);
                }
            },
            None => {},
        }
    }
}

/// The walk of one directory never gains numbers.
pub proof fn lemma_walk_one_bounded(s: FsView, d: u64, budget: nat)
    ensures
        walk_one(s, d, budget) matches Some(b) ==> b <= budget,
    decreases budget, 0nat, 0nat,
{
    if budget > 0 && s.names.contains_key(d) {
        lemma_walk_bounded(s, d, (budget - 1) as nat);
    }
}

proof fn lemma_walk_dirs_prefix(s: FsView, dirs: Seq<u64>, budget: nat, i: int)
    requires
        0 <= i <= dirs.len(),
        walk_dirs(s, dirs.take(i), budget) is None,
    ensures
        walk_dirs(s, dirs, budget) is None,
    decreases dirs.len(),
{
    if i < dirs.len() {
        assert(dirs.drop_last().take(i) =~= dirs.take(i));
        lemma_walk_dirs_prefix(s, dirs.drop_last(), budget, i);
    } else {
        assert(dirs.take(i) =~= dirs);
    }
}

impl UnionFs {
    /// Walks read-only directory `r` with `budget` numbers left, as `walk`
    /// says.
    pub fn walk_readable(&self, r: u64, budget: u64) -> (res: Option<u64>)
        ensures
            match res {
                Some(b) => walk(self@, r, budget as nat) == Some(b as nat),
                None => walk(self@, r, budget as nat) is None,
            },
        decreases budget,
    {
        let ghost s = self@;
        if !self.is_dir_node(r) {
            return None;
        }
        let links = self.node_ref(r).unwrap().node_kind.children_of_directory().unwrap();
        let ghost kids = crate::node::links_view(links@);
        let mut dirs: Vec<u64> = Vec::new();
        let mut i: usize = 0;
        while i < links.len()
            invariant
                i <= links.len(),
                s == self@,
                kids == crate::node::links_view(links@),
                kids == s.children_at(r),
                forall|k: int| 0 <= k < i ==> s.nodes.contains_key(#[trigger] kids[k].1),
                dirs@ == dir_list(s, kids.take(i as int)),
            decreases links.len() - i,
        {
            let v = links[i].inode;
            assert(kids[i as int].1 == v);
            assert(kids.take(i + 1).drop_last() =~= kids.take(i as int));
            assert(kids.take(i + 1).last() == kids[i as int]);
            match self.node_ref(v) {
                None => {
                    return None;
                },
                Some(c) => {
                    if c.node_kind.children_of_directory().is_some() {
                        dirs.push(v);
                    }
                },
            }
            i = i + 1;
        }
        assert(kids.take(i as int) =~= kids);
        assert(kids_exist(s, s.children_at(r)));
        let ghost dl = dirs@;
        assert(walk(s, r, budget as nat) == walk_dirs(s, dl, budget as nat));
        let mut left = budget;
        let mut j: usize = 0;
        while j < dirs.len()
            invariant
                j <= dirs.len(),
                s == self@,
                dl == dirs@,
                left <= budget,
                walk(s, r, budget as nat) == walk_dirs(s, dl, budget as nat),
                walk_dirs(s, dl.take(j as int), budget as nat) == Some(left as nat),
            decreases dirs.len() - j,
        {
            let d = dirs[j];
            assert(dl.take(j + 1).drop_last() =~= dl.take(j as int));
            assert(dl.take(j + 1).last() == d);
            if left == 0 || !self.inode_to_string_mapping.contains_key(&d) {
                proof {
                    assert(walk_one(s, d, left as nat) is None);
                    assert(walk_dirs(s, dl.take(j + 1), budget as nat) == walk_one(s, d, left as nat));
                    lemma_walk_dirs_prefix(s, dl, budget as nat, j + 1);
                }
                return None;
            }
            match self.walk_readable(d, left - 1) {
                None => {
                    proof {
                        assert(walk_dirs(s, dl.take(j + 1), budget as nat) == walk_one(s, d, left as nat));
                        lemma_walk_dirs_prefix(s, dl, budget as nat, j + 1);
                    }
                    return None;
                },
                Some(b2) => {
                    proof {
                        lemma_walk_bounded(s, d, (left - 1) as nat);
                    }
                    left = b2;
                },
            }
            j = j + 1;
        }
        assert(dl.take(j as int) =~= dl);
        Some(left)
    }
}

/// `t` agrees with `s` on every inode number up to `s`'s counter: the same
/// inodes exist, of the same kinds, with the same entries and the same names.
pub open spec fn agrees(t: FsView, s: FsView) -> bool {
    forall|k: u64|
        k <= s.cur_inode ==> {
            &&& (#[trigger] t.nodes.contains_key(k)) == s.nodes.contains_key(k)
            &&& s.nodes.contains_key(k) ==> t.nodes[k].node.is_dir() == s.nodes[k].node.is_dir()
                && t.nodes[k].node.children() == s.nodes[k].node.children()
            &&& t.names.contains_key(k) == s.names.contains_key(k)
        }
}

/// Every directory of `t` is still one in `u`.
pub open spec fn dirs_kept(t: FsView, u: FsView) -> bool {
    forall|k: u64| #[trigger] t.is_dir_at(k) ==> u.is_dir_at(k)
}

/// `t` is `s` with a writable directory `w` being filled: it agrees with
/// `s`, and `w` is a directory past `s`'s counter.
pub open spec fn frame(t: FsView, s: FsView, w: u64) -> bool {
    &&& agrees(t, s)
    &&& t.cur_inode >= s.cur_inode
    &&& w > s.cur_inode
    &&& t.is_dir_at(w)
}

/// The inode numbers left to hand out.
pub open spec fn budget(t: FsView) -> nat {
    (u64::MAX - t.cur_inode) as nat
}

proof fn lemma_mark_frame(t: FsView, s: FsView, kids: Seq<(Seq<char>, u64)>, w: u64, ses: i32)
    requires
        agrees(t, s),
        forall|i: int| 0 <= i < kids.len() ==> #[trigger] kids[i].1 <= s.cur_inode,
    ensures
        (mark_children(t, kids, w, ses) is Some) == kids_exist(s, kids),
        mark_children(t, kids, w, ses) matches Some((t1, ds)) ==> {
            &&& agrees(t1, s)
            &&& t1.cur_inode == t.cur_inode
            &&& ds == dir_list(s, kids)
            &&& t1.w2r == t.w2r
            &&& t1.names == t.names
            &&& dirs_kept(t, t1)
        },
    decreases kids.len(),
{
    if kids.len() > 0 {
        let k0 = kids.drop_last();
        assert forall|i: int| 0 <= i < k0.len() implies #[trigger] k0[i].1 <= s.cur_inode by {
            assert(k0[i] == kids[i]);
        }
        lemma_mark_frame(t, s, k0, w, ses);
        let v = kids.last().1;
        assert(kids[kids.len() - 1].1 <= s.cur_inode);
        if kids_exist(s, kids) {
            assert forall|i: int| 0 <= i < k0.len() implies s.nodes.contains_key(#[trigger] k0[i].1) by {
                assert(k0[i] == kids[i]);
            }
            assert(s.nodes.contains_key(kids[kids.len() - 1].1));
        }
        match mark_children(t, k0, w, ses) {
            Some((t1, ds)) => {
                assert(t1.nodes.contains_key(v) == s.nodes.contains_key(v));
                if !s.nodes.contains_key(v) {
                    assert(!kids_exist(s, kids)) by {
                        assert(kids[kids.len() - 1].1 == v);
                    }
                } else {
                    let t2 = t1.with_writable_parent(v, ses, w);
                    assert forall|i: int| 0 <= i < kids.len() implies s.nodes.contains_key(
                        #[trigger] kids[i].1,
                    ) by {
                        if i < k0.len() {
                            assert(k0[i] == kids[i]);
                        }
                    }
                    assert(agrees(t2, s));
                    assert(dirs_kept(t, t2)) by {
                        assert forall|k: u64| #[trigger] t.is_dir_at(k) implies t2.is_dir_at(k) by {
                            assert(t1.is_dir_at(k));
                        }
                    }
                }
            },
            None => {
                if kids_exist(s, kids) {
                    assert forall|i: int| 0 <= i < k0.len() implies s.nodes.contains_key(
                        #[trigger] k0[i].1,
                    ) by {
                        assert(k0[i] == kids[i]);
                    }
                }
            },
        }
    } else {
        assert(dirs_kept(t, t));
    }
}

proof fn lemma_dir_list_facts(s: FsView, kids: Seq<(Seq<char>, u64)>)
    requires
        kids_exist(s, kids),
        forall|i: int| 0 <= i < kids.len() ==> #[trigger] kids[i].1 <= s.cur_inode,
    ensures
        forall|j: int|
            0 <= j < dir_list(s, kids).len() ==> #[trigger] dir_list(s, kids)[j] <= s.cur_inode
                && s.is_dir_at(dir_list(s, kids)[j]),
    decreases kids.len(),
{
    if kids.len() > 0 {
        let k0 = kids.drop_last();
        assert forall|i: int| 0 <= i < k0.len() implies #[trigger] k0[i].1 <= s.cur_inode
            && s.nodes.contains_key(k0[i].1) by {
            assert(k0[i] == kids[i]);
        }
        lemma_dir_list_facts(s, k0);
        let prev = dir_list(s, k0);
        let dl = dir_list(s, kids);
        assert(kids[kids.len() - 1].1 <= s.cur_inode);
        assert(s.nodes.contains_key(kids[kids.len() - 1].1));
        assert forall|j: int| 0 <= j < dl.len() implies #[trigger] dl[j] <= s.cur_inode && s.is_dir_at(
            dl[j],
        ) by {
            if j < prev.len() {
                assert(dl[j] == prev[j]);
            }
        }
    }
}

/// The state in which the twin of `d` inside `w` is about to be filled, as
/// `clone_one` builds it.
pub open spec fn twin_state(t: FsView, d: u64, w: u64, now: SystemTime) -> FsView {
    let s1 = t.bumped();
    let c = s1.cur_inode;
    let nm = s1.names[d];
    s1.with_child(w, nm, c).with_name(c, nm).with_shadow(c, Some(d)).with_node(
        c,
        InodeView { attr: fresh_attr(c, true, now), node: writable_dir_view(Seq::empty()) },
    )
}

proof fn lemma_twin_frame(t: FsView, s: FsView, d: u64, w: u64, now: SystemTime)
    requires
        frame(t, s, w),
        t.cur_inode < u64::MAX,
    ensures
        frame(twin_state(t, d, w, now), s, (t.cur_inode + 1) as u64),
        dirs_kept(t, twin_state(t, d, w, now)),
        twin_state(t, d, w, now).cur_inode == t.cur_inode + 1,
        twin_state(t, d, w, now).w2r[(t.cur_inode + 1) as u64] == Some(d),
{
    let u = twin_state(t, d, w, now);
    let c = (t.cur_inode + 1) as u64;
    assert forall|k: u64| #[trigger] t.is_dir_at(k) implies u.is_dir_at(k) by {
        if k == w {
        } else if k == c {
        }
    }
    assert forall|k: u64| k <= s.cur_inode implies {
        &&& (#[trigger] u.nodes.contains_key(k)) == s.nodes.contains_key(k)
        &&& s.nodes.contains_key(k) ==> u.nodes[k].node.is_dir() == s.nodes[k].node.is_dir()
            && u.nodes[k].node.children() == s.nodes[k].node.children()
        &&& u.names.contains_key(k) == s.names.contains_key(k)
    } by {
        assert(k != w && k != c);
    }
    assert(agrees(u, s));
    assert(u.cur_inode >= s.cur_inode);
    assert(c > s.cur_inode);
    assert(u.is_dir_at(c));
}

/// Where the filling of `w` completes, the walk from what `w` shadows
/// completes too, leaving as many numbers as the filling left.
proof fn lemma_clone_walks(t: FsView, s: FsView, w: u64, ses: i32, fuel: nat, now: SystemTime)
    requires
        frame(t, s, w),
        children_handed_out(s),
        t.w2r.contains_key(w),
        t.w2r[w] is Some,
        t.w2r[w]->Some_0 <= s.cur_inode,
        clone_fs_spec(t, w, ses, fuel, now) is Some,
    ensures
        ({
            let u = clone_fs_spec(t, w, ses, fuel, now)->Some_0;
            &&& walk(s, t.w2r[w]->Some_0, budget(t)) == Some(budget(u))
            &&& agrees(u, s)
            &&& u.cur_inode >= t.cur_inode
            &&& dirs_kept(t, u)
        }),
    decreases fuel, 2nat, 0nat,
{
    let r = t.w2r[w]->Some_0;
    assert(t.nodes.contains_key(r) == s.nodes.contains_key(r));
    let kids = t.children_at(r);
    assert(kids == s.children_at(r));
    assert forall|i: int| 0 <= i < kids.len() implies #[trigger] kids[i].1 <= s.cur_inode by {
        assert(s.children_at(r)[i] == kids[i]);
    }
    lemma_mark_frame(t, s, kids, w, ses);
    let (t1, ds) = mark_children(t, kids, w, ses)->Some_0;
    lemma_dir_list_facts(s, kids);
    lemma_clone_dirs_walks(t1, s, ds, w, ses, fuel, now);
}

proof fn lemma_clone_dirs_walks(t: FsView, s: FsView, ds: Seq<u64>, w: u64, ses: i32, fuel: nat, now: SystemTime)
    requires
        frame(t, s, w),
        children_handed_out(s),
        forall|j: int| 0 <= j < ds.len() ==> #[trigger] ds[j] <= s.cur_inode && s.is_dir_at(ds[j]),
        clone_dirs(t, ds, w, ses, fuel, now) is Some,
    ensures
        ({
            let u = clone_dirs(t, ds, w, ses, fuel, now)->Some_0;
            &&& walk_dirs(s, ds, budget(t)) == Some(budget(u))
            &&& agrees(u, s)
            &&& u.cur_inode >= t.cur_inode
            &&& dirs_kept(t, u)
        }),
    decreases fuel, 1nat, ds.len(),
{
    if ds.len() == 0 {
        assert(dirs_kept(t, t));
    } else {
        let d0 = ds.drop_last();
        assert forall|j: int| 0 <= j < d0.len() implies #[trigger] d0[j] <= s.cur_inode && s.is_dir_at(
            d0[j],
        ) by {
            assert(d0[j] == ds[j]);
        }
        lemma_clone_dirs_walks(t, s, d0, w, ses, fuel, now);
        let u1 = clone_dirs(t, d0, w, ses, fuel, now)->Some_0;
        let d = ds.last();
        assert(ds[ds.len() - 1] <= s.cur_inode && s.is_dir_at(ds[ds.len() - 1]));
        lemma_clone_one_walks(u1, s, d, w, ses, fuel, now);
    }
}

proof fn lemma_clone_one_walks(t: FsView, s: FsView, d: u64, w: u64, ses: i32, fuel: nat, now: SystemTime)
    requires
        frame(t, s, w),
        children_handed_out(s),
        d <= s.cur_inode,
        s.is_dir_at(d),
        clone_one(t, d, w, ses, fuel, now) is Some,
    ensures
        ({
            let u = clone_one(t, d, w, ses, fuel, now)->Some_0;
            &&& walk_one(s, d, budget(t)) == Some(budget(u))
            &&& agrees(u, s)
            &&& u.cur_inode >= t.cur_inode
            &&& dirs_kept(t, u)
        }),
    decreases fuel, 0nat, 0nat,
{
    let c = (t.cur_inode + 1) as u64;
    let t2 = twin_state(t, d, w, now);
    lemma_twin_frame(t, s, d, w, now);
    assert(t.names.contains_key(d) == s.names.contains_key(d));
    assert(clone_one(t, d, w, ses, fuel, now) == clone_fs_spec(t2, c, ses, (fuel - 1) as nat, now));
    lemma_clone_walks(t2, s, c, ses, (fuel - 1) as nat, now);
    let u = clone_one(t, d, w, ses, fuel, now)->Some_0;
    assert(budget(t2) == budget(t) - 1);
    assert(dirs_kept(t, u)) by {
        assert forall|k: u64| #[trigger] t.is_dir_at(k) implies u.is_dir_at(k) by {
            assert(t2.is_dir_at(k));
        }
    }
}

/// Where the walk from what `w` shadows completes, so does the filling of
/// `w`, given as many levels as numbers are left.
proof fn lemma_walk_clones(t: FsView, s: FsView, w: u64, ses: i32, fuel: nat, now: SystemTime)
    requires
        frame(t, s, w),
        children_handed_out(s),
        t.w2r.contains_key(w),
        t.w2r[w] is Some,
        t.w2r[w]->Some_0 <= s.cur_inode,
        fuel >= budget(t),
        walk(s, t.w2r[w]->Some_0, budget(t)) is Some,
    ensures
        clone_fs_spec(t, w, ses, fuel, now) is Some,
    decreases fuel, 2nat, 0nat,
{
    let r = t.w2r[w]->Some_0;
    assert(t.nodes.contains_key(r) == s.nodes.contains_key(r));
    let kids = t.children_at(r);
    assert(kids == s.children_at(r));
    assert forall|i: int| 0 <= i < kids.len() implies #[trigger] kids[i].1 <= s.cur_inode by {
        assert(s.children_at(r)[i] == kids[i]);
    }
    lemma_mark_frame(t, s, kids, w, ses);
    let (t1, ds) = mark_children(t, kids, w, ses)->Some_0;
    lemma_dir_list_facts(s, kids);
    lemma_walk_dirs_clones(t1, s, ds, w, ses, fuel, now);
}

proof fn lemma_walk_dirs_clones(t: FsView, s: FsView, ds: Seq<u64>, w: u64, ses: i32, fuel: nat, now: SystemTime)
    requires
        frame(t, s, w),
        children_handed_out(s),
        forall|j: int| 0 <= j < ds.len() ==> #[trigger] ds[j] <= s.cur_inode && s.is_dir_at(ds[j]),
        fuel >= budget(t),
        walk_dirs(s, ds, budget(t)) is Some,
    ensures
        clone_dirs(t, ds, w, ses, fuel, now) is Some,
    decreases fuel, 1nat, ds.len(),
{
    if ds.len() > 0 {
        let d0 = ds.drop_last();
        assert forall|j: int| 0 <= j < d0.len() implies #[trigger] d0[j] <= s.cur_inode && s.is_dir_at(
            d0[j],
        ) by {
            assert(d0[j] == ds[j]);
        }
        lemma_walk_dirs_clones(t, s, d0, w, ses, fuel, now);
        lemma_clone_dirs_walks(t, s, d0, w, ses, fuel, now);
        let u1 = clone_dirs(t, d0, w, ses, fuel, now)->Some_0;
        let d = ds.last();
        assert(ds[ds.len() - 1] <= s.cur_inode && s.is_dir_at(ds[ds.len() - 1]));
        assert(walk_one(s, d, budget(u1)) is Some);
        lemma_walk_one_clones(u1, s, d, w, ses, fuel, now);
    }
}

proof fn lemma_walk_one_clones(t: FsView, s: FsView, d: u64, w: u64, ses: i32, fuel: nat, now: SystemTime)
    requires
        frame(t, s, w),
        children_handed_out(s),
        d <= s.cur_inode,
        s.is_dir_at(d),
        fuel >= budget(t),
        walk_one(s, d, budget(t)) is Some,
    ensures
        clone_one(t, d, w, ses, fuel, now) is Some,
    decreases fuel, 0nat, 0nat,
{
    let c = (t.cur_inode + 1) as u64;
    let t2 = twin_state(t, d, w, now);
    lemma_twin_frame(t, s, d, w, now);
    assert(t.names.contains_key(d) == s.names.contains_key(d));
    assert(budget(t2) == budget(t) - 1);
    assert(clone_one(t, d, w, ses, fuel, now) == clone_fs_spec(t2, c, ses, (fuel - 1) as nat, now));
    lemma_walk_clones(t2, s, c, ses, (fuel - 1) as nat, now);
}

/// The state in which a new session's writable root, at the next inode, is
/// about to be filled.
pub open spec fn session_root_state(s: FsView, ses: i32, now: SystemTime) -> FsView {
    let c = (s.cur_inode + 1) as u64;
    s.bumped().with_session(ses, c).with_node(
        c,
        InodeView { attr: fresh_attr(c, true, now), node: writable_dir_view(Seq::empty()) },
    ).with_name(c, root_name()).with_shadow(c, Some(1))
}

/// Where every entry names a number handed out, a new session's writable
/// layer can be built exactly when the counter is not exhausted and the walk
/// from the read-only root completes with the numbers left after the new
/// root.
pub proof fn lemma_new_session_walk(s: FsView, ses: i32, now: SystemTime)
    requires
        children_handed_out(s),
        s.cur_inode >= 1,
    ensures
        (with_new_session(s, ses, now) is Some) == (s.cur_inode < u64::MAX && walk(
            s,
            1,
            (u64::MAX - s.cur_inode - 1) as nat,
        ) is Some),
{
    if s.cur_inode < u64::MAX {
        let c = (s.cur_inode + 1) as u64;
        let t = session_root_state(s, ses, now);
        assert(agrees(t, s)) by {
            assert forall|k: u64| k <= s.cur_inode implies {
                &&& (#[trigger] t.nodes.contains_key(k)) == s.nodes.contains_key(k)
                &&& s.nodes.contains_key(k) ==> t.nodes[k].node.is_dir() == s.nodes[k].node.is_dir()
                    && t.nodes[k].node.children() == s.nodes[k].node.children()
                &&& t.names.contains_key(k) == s.names.contains_key(k)
            } by {
                assert(k != c);
            }
        }
        assert(frame(t, s, c));
        assert(budget(t) == (u64::MAX - s.cur_inode - 1) as nat);
        if walk(s, 1, budget(t)) is Some {
            lemma_walk_clones(t, s, c, ses, budget(t), now);
            assert(clone_completes(t, c, ses, now));
        }
        if clone_completes(t, c, ses, now) {
            let fuel = choose|fuel: nat| (#[trigger] clone_fs_spec(t, c, ses, fuel, now)) is Some;
            lemma_clone_walks(t, s, c, ses, fuel, now);
        }
    }
}


} // verus!
