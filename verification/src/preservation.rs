//! What every request keeps: the counters never go back, sessions keep
//! their writable roots, inode numbers in use and directory entries name
//! numbers the counter has handed out, and no directory holds a name twice.

use crate::clone::{clone_dirs, clone_fs_spec, clone_one, mark_children};
use crate::create::{create_spec, mkdir_spec, mknod_spec};
use crate::handed::{children_handed_out, entries_ok, lemma_distinct_same_nodes, lemma_handed_same_nodes};
use crate::lookup::{lookup_spec, with_new_session};
use crate::remove::{rmdir_spec, unlink_spec};
use crate::rename::{payload_of, place_payload, rename_spec, PayloadView};
use crate::path::strip_spec;
use crate::scan::{instantiate_spec, instantiate_tree_spec, ScannedKind, ScannedTree};
use crate::state::{initial_view, FsView};
use crate::write::{copy_up, write_spec};
use std::time::SystemTime;
use vstd::prelude::*;

verus! {

broadcast use crate::handed::group_handed_out;

/// A request that changes the state.
pub enum Request {
    Lookup { ses: Option<i32>, parent: u64, name: Seq<char> },
    Write { ses: Option<i32>, ino: u64, offset: u64, data: Seq<u8> },
    Open,
    Rename { ses: Option<i32>, parent: u64, name: Seq<char>, newparent: u64, newname: Seq<char> },
    Rmdir { ses: Option<i32>, parent: u64, name: Seq<char> },
    Unlink { ses: Option<i32>, parent: u64, name: Seq<char> },
    Mknod { parent: u64, name: Seq<char> },
    Mkdir { ses: Option<i32>, parent: u64, name: Seq<char> },
    Create { ses: Option<i32>, parent: u64, name: Seq<char> },
    Instantiate { parent: u64, name: Seq<char>, kind: ScannedKind },
    InstantiateTree { parent: u64, dir_path: Seq<char>, entries: Seq<ScannedTree> },
}

/// The state after request `req` is served at time `now`; `None` where the
/// request cannot be served.
pub open spec fn step(s: FsView, req: Request, now: SystemTime) -> Option<FsView> {
    match req {
        Request::Lookup { ses, parent, name } => match lookup_spec(s, ses, parent, name, now) {
            Some((t, _)) => Some(t),
            None => None,
        },
        Request::Write { ses, ino, offset, data } => match write_spec(s, ses, ino, offset, data, now) {
            Some((t, _)) => Some(t),
            None => None,
        },
        Request::Open => if s.cur_fh < u64::MAX {
            Some(FsView { cur_fh: (s.cur_fh + 1) as u64, ..s })
        } else {
            None
        },
        Request::Rename { ses, parent, name, newparent, newname } => match rename_spec(
            s,
            ses,
            parent,
            name,
            newparent,
            newname,
            now,
        ) {
            Some((t, _)) => Some(t),
            None => None,
        },
        Request::Rmdir { ses, parent, name } => rmdir_spec(s, ses, parent, name),
        Request::Unlink { ses, parent, name } => unlink_spec(s, ses, parent, name),
        Request::Mknod { parent, name } => match mknod_spec(s, parent, name, now) {
            Some((t, _)) => Some(t),
            None => None,
        },
        Request::Mkdir { ses, parent, name } => match mkdir_spec(s, ses, parent, name, now) {
            Some((t, _)) => Some(t),
            None => None,
        },
        Request::Create { ses, parent, name } => match create_spec(s, ses, parent, name, now) {
            Some((t, _)) => Some(t),
            None => None,
        },
        Request::Instantiate { parent, name, kind } => instantiate_spec(s, parent, name, kind, now),
        Request::InstantiateTree { parent, dir_path, entries } => instantiate_tree_spec(
            s,
            parent,
            dir_path,
            entries,
            now,
        ),
    }
}

/// Every inode number in use has been handed out by the counter.
pub open spec fn numbers_handed_out(s: FsView) -> bool {
    forall|k: u64| s.nodes.contains_key(k) ==> k <= s.cur_inode
}

/// `t` follows `s`: the counters never go back, every session keeps its
/// writable root, and inode numbers in use stay handed out.
pub open spec fn follows(s: FsView, t: FsView) -> bool {
    &&& t.cur_inode >= s.cur_inode
    &&& t.cur_fh >= s.cur_fh
    &&& forall|x: i32|
        #![trigger s.sessions.contains_key(x)]
        #![trigger t.sessions[x]]
        s.sessions.contains_key(x) ==> t.sessions.contains_key(x) && t.sessions[x] == s.sessions[x]
    &&& numbers_handed_out(s) ==> numbers_handed_out(t)
}


/// A new filesystem uses only inode numbers it has handed out.
pub proof fn lemma_initial_handed_out(now: SystemTime)
    ensures
        numbers_handed_out(initial_view(now)),
{
}

proof fn lemma_mark_follows(s: FsView, kids: Seq<(Seq<char>, u64)>, w: u64, ses: i32)
    requires
        mark_children(s, kids, w, ses) is Some,
    ensures
        follows(s, mark_children(s, kids, w, ses)->Some_0.0),
        mark_children(s, kids, w, ses)->Some_0.0.sessions == s.sessions,
    decreases kids.len(),
{
    if kids.len() > 0 {
        lemma_mark_follows(s, kids.drop_last(), w, ses);
    }
}

/// Filling a writable directory moves no counter back, keeps the sessions,
/// and hands out every inode number it uses.
pub proof fn lemma_clone_follows(s: FsView, w: u64, ses: i32, fuel: nat, now: SystemTime)
    requires
        clone_fs_spec(s, w, ses, fuel, now) is Some,
    ensures
        follows(s, clone_fs_spec(s, w, ses, fuel, now)->Some_0),
        clone_fs_spec(s, w, ses, fuel, now)->Some_0.sessions == s.sessions,
    decreases fuel, 2nat, 0nat,
{
    let r = s.w2r[w]->Some_0;
    lemma_mark_follows(s, s.children_at(r), w, ses);
    let (s1, dirs) = mark_children(s, s.children_at(r), w, ses)->Some_0;
    lemma_clone_dirs_follows(s1, dirs, w, ses, fuel, now);
}

proof fn lemma_clone_dirs_follows(s: FsView, dirs: Seq<u64>, w: u64, ses: i32, fuel: nat, now: SystemTime)
    requires
        clone_dirs(s, dirs, w, ses, fuel, now) is Some,
    ensures
        follows(s, clone_dirs(s, dirs, w, ses, fuel, now)->Some_0),
        clone_dirs(s, dirs, w, ses, fuel, now)->Some_0.sessions == s.sessions,
    decreases fuel, 1nat, dirs.len(),
{
    if dirs.len() > 0 {
        lemma_clone_dirs_follows(s, dirs.drop_last(), w, ses, fuel, now);
        let s1 = clone_dirs(s, dirs.drop_last(), w, ses, fuel, now)->Some_0;
        lemma_clone_one_follows(s1, dirs.last(), w, ses, fuel, now);
    }
}

proof fn lemma_clone_one_follows(s: FsView, d: u64, w: u64, ses: i32, fuel: nat, now: SystemTime)
    requires
        clone_one(s, d, w, ses, fuel, now) is Some,
    ensures
        follows(s, clone_one(s, d, w, ses, fuel, now)->Some_0),
        clone_one(s, d, w, ses, fuel, now)->Some_0.sessions == s.sessions,
    decreases fuel, 0nat, 0nat,
{
    let s1 = s.bumped();
    let c = s1.cur_inode;
    let nm = s1.names[d];
    let s2 = s1.with_child(w, nm, c).with_name(c, nm).with_shadow(c, Some(d)).with_node(
        c,
        crate::node::InodeView {
            attr: crate::attr::fresh_attr(c, true, now),
            node: crate::node::writable_dir_view(Seq::empty()),
        },
    );
    assert(follows(s, s2));
    lemma_clone_follows(s2, c, ses, (fuel - 1) as nat, now);
}

proof fn lemma_lookup_follows(s: FsView, ses: Option<i32>, parent: u64, name: Seq<char>, now: SystemTime)
    requires
        lookup_spec(s, ses, parent, name, now) is Some,
    ensures
        follows(s, lookup_spec(s, ses, parent, name, now)->Some_0.0),
{
    if !crate::lookup::is_probe_name(name) && ses is Some {
        let x = ses->0;
        if !s.sessions.contains_key(x) && x != 0 {
            let c = (s.cur_inode + 1) as u64;
            let s1 = s.bumped().with_session(x, c).with_node(
                c,
                crate::node::InodeView {
                    attr: crate::attr::fresh_attr(c, true, now),
                    node: crate::node::writable_dir_view(Seq::empty()),
                },
            ).with_name(c, crate::state::root_name()).with_shadow(c, Some(1));
            assert(follows(s, s1));
            let fuel = choose|fuel: nat| (#[trigger] clone_fs_spec(s1, c, x, fuel, now)) is Some;
            lemma_clone_follows(s1, c, x, fuel, now);
        }
    }
}

proof fn lemma_write_follows(s: FsView, ses: Option<i32>, ino: u64, offset: u64, data: Seq<u8>, now: SystemTime)
    requires
        write_spec(s, ses, ino, offset, data, now) is Some,
    ensures
        follows(s, write_spec(s, ses, ino, offset, data, now)->Some_0.0),
{
}

proof fn lemma_rename_follows(
    s: FsView,
    ses: Option<i32>,
    parent: u64,
    name: Seq<char>,
    newparent: u64,
    newname: Seq<char>,
    now: SystemTime,
)
    requires
        rename_spec(s, ses, parent, name, newparent, newname, now) is Some,
    ensures
        follows(s, rename_spec(s, ses, parent, name, newparent, newname, now)->Some_0.0),
{
}

proof fn lemma_remove_follows(s: FsView, ses: Option<i32>, parent: u64, name: Seq<char>)
    ensures
        rmdir_spec(s, ses, parent, name) is Some ==> follows(s, rmdir_spec(s, ses, parent, name)->Some_0),
        unlink_spec(s, ses, parent, name) is Some ==> follows(s, unlink_spec(s, ses, parent, name)->Some_0),
{
}

proof fn lemma_make_follows(s: FsView, ses: Option<i32>, parent: u64, name: Seq<char>, now: SystemTime)
    ensures
        mknod_spec(s, parent, name, now) is Some ==> follows(s, mknod_spec(s, parent, name, now)->Some_0.0),
        mkdir_spec(s, ses, parent, name, now) is Some ==> follows(
            s,
            mkdir_spec(s, ses, parent, name, now)->Some_0.0,
        ),
        create_spec(s, ses, parent, name, now) is Some ==> follows(
            s,
            create_spec(s, ses, parent, name, now)->Some_0.0,
        ),
{
}

proof fn lemma_instantiate_follows(s: FsView, parent: u64, name: Seq<char>, kind: ScannedKind, now: SystemTime)
    requires
        instantiate_spec(s, parent, name, kind, now) is Some,
    ensures
        follows(s, instantiate_spec(s, parent, name, kind, now)->Some_0),
{
}

proof fn lemma_follows_trans(a: FsView, b: FsView, c: FsView)
    requires
        follows(a, b),
        follows(b, c),
    ensures
        follows(a, c),
{
    assert forall|x: i32|
        #![trigger a.sessions.contains_key(x)]
        #![trigger c.sessions[x]]
        a.sessions.contains_key(x) implies c.sessions.contains_key(x) && c.sessions[x] == a.sessions[x] by {
        assert(b.sessions[x] == a.sessions[x]);
        assert(c.sessions[x] == b.sessions[x]);
    }
}

proof fn lemma_tree_follows(s: FsView, parent: u64, dir_path: Seq<char>, entries: Seq<ScannedTree>, now: SystemTime)
    requires
        instantiate_tree_spec(s, parent, dir_path, entries, now) is Some,
    ensures
        follows(s, instantiate_tree_spec(s, parent, dir_path, entries, now)->Some_0),
    decreases entries,
{
    if entries.len() > 0 {
        let rest = entries.subrange(1, entries.len() as int);
        match entries[0] {
            ScannedTree::File { path, content } => {
                let kind = ScannedKind::File(content);
                let name = strip_spec(dir_path, path@);
                lemma_instantiate_follows(s, parent, name, kind, now);
                let s1 = instantiate_spec(s, parent, name, kind, now)->Some_0;
                lemma_tree_follows(s1, parent, dir_path, rest, now);
                lemma_follows_trans(s, s1, instantiate_tree_spec(s1, parent, dir_path, rest, now)->Some_0);
            },
            ScannedTree::Directory { path, entries: sub } => {
                let name = strip_spec(dir_path, path@);
                lemma_instantiate_follows(s, parent, name, ScannedKind::Directory, now);
                let s1 = instantiate_spec(s, parent, name, ScannedKind::Directory, now)->Some_0;
                assert(decreases_to!(entries => entries[0]));
                assert(decreases_to!(sub => sub@));
                lemma_tree_follows(s1, s1.cur_inode, path@, sub@, now);
                let s2 = instantiate_tree_spec(s1, s1.cur_inode, path@, sub@, now)->Some_0;
                lemma_tree_follows(s2, parent, dir_path, rest, now);
                lemma_follows_trans(s, s1, s2);
                lemma_follows_trans(s, s2, instantiate_tree_spec(s2, parent, dir_path, rest, now)->Some_0);
            },
            ScannedTree::Other { path } => {
                let name = strip_spec(dir_path, path@);
                lemma_instantiate_follows(s, parent, name, ScannedKind::Other, now);
                let s1 = instantiate_spec(s, parent, name, ScannedKind::Other, now)->Some_0;
                lemma_tree_follows(s1, parent, dir_path, rest, now);
                lemma_follows_trans(s, s1, instantiate_tree_spec(s1, parent, dir_path, rest, now)->Some_0);
            },
        }
    }
}

/// Every request that completes moves no counter back, leaves every
/// session's writable root in place, and hands out every inode number it
/// uses.
pub proof fn lemma_step_follows(s: FsView, req: Request, now: SystemTime)
    requires
        step(s, req, now) is Some,
    ensures
        follows(s, step(s, req, now)->Some_0),
{
    match req {
        Request::Lookup { ses, parent, name } => lemma_lookup_follows(s, ses, parent, name, now),
        Request::Write { ses, ino, offset, data } => lemma_write_follows(s, ses, ino, offset, data, now),
        Request::Open => {},
        Request::Rename { ses, parent, name, newparent, newname } => lemma_rename_follows(
            s,
            ses,
            parent,
            name,
            newparent,
            newname,
            now,
        ),
        Request::Rmdir { ses, parent, name } => lemma_remove_follows(s, ses, parent, name),
        Request::Unlink { ses, parent, name } => lemma_remove_follows(s, ses, parent, name),
        Request::Mknod { parent, name } => lemma_make_follows(s, None, parent, name, now),
        Request::Mkdir { ses, parent, name } => lemma_make_follows(s, ses, parent, name, now),
        Request::Create { ses, parent, name } => lemma_make_follows(s, ses, parent, name, now),
        Request::Instantiate { parent, name, kind } => lemma_instantiate_follows(s, parent, name, kind, now),
        Request::InstantiateTree { parent, dir_path, entries } => lemma_tree_follows(
            s,
            parent,
            dir_path,
            entries,
            now,
        ),
    }
}

/// An inode that `name` names in a directory is handed out.
pub proof fn lemma_child_handed(s: FsView, d: u64, name: Seq<char>)
    requires
        children_handed_out(s),
        s.is_dir_at(d),
        s.child_in(d, name) is Some,
    ensures
        s.child_in(d, name)->Some_0 <= s.cur_inode,
{
    let i0 = choose|i: int| crate::node::is_first(s.children_at(d), name, i);
    assert(crate::node::is_first(s.children_at(d), name, i0));
    assert(s.children_at(d)[i0].1 <= s.cur_inode);
}

/// The entries of every directory are handed out.
proof fn lemma_dir_entries_handed(s: FsView, d: u64)
    requires
        children_handed_out(s),
        s.is_dir_at(d),
    ensures
        forall|i: int| 0 <= i < s.children_at(d).len() ==> #[trigger] s.children_at(d)[i].1 <= s.cur_inode,
{
}

proof fn lemma_mark_handed(s: FsView, kids: Seq<(Seq<char>, u64)>, w: u64, ses: i32)
    requires
        entries_ok(s),
        mark_children(s, kids, w, ses) is Some,
    ensures
        entries_ok(mark_children(s, kids, w, ses)->Some_0.0),
        mark_children(s, kids, w, ses)->Some_0.0.cur_inode == s.cur_inode,
    decreases kids.len(),
{
    if kids.len() > 0 {
        lemma_mark_handed(s, kids.drop_last(), w, ses);
        let t1 = mark_children(s, kids.drop_last(), w, ses)->Some_0.0;
        assert(entries_ok(t1.with_writable_parent(kids.last().1, ses, w)));
    }
}

proof fn lemma_clone_handed(s: FsView, w: u64, ses: i32, fuel: nat, now: SystemTime)
    requires
        entries_ok(s),
        clone_fs_spec(s, w, ses, fuel, now) is Some,
    ensures
        entries_ok(clone_fs_spec(s, w, ses, fuel, now)->Some_0),
    decreases fuel, 2nat, 0nat,
{
    let r = s.w2r[w]->Some_0;
    lemma_mark_handed(s, s.children_at(r), w, ses);
    let (s1, dirs) = mark_children(s, s.children_at(r), w, ses)->Some_0;
    lemma_clone_dirs_handed(s1, dirs, w, ses, fuel, now);
}

proof fn lemma_clone_dirs_handed(s: FsView, dirs: Seq<u64>, w: u64, ses: i32, fuel: nat, now: SystemTime)
    requires
        entries_ok(s),
        clone_dirs(s, dirs, w, ses, fuel, now) is Some,
    ensures
        entries_ok(clone_dirs(s, dirs, w, ses, fuel, now)->Some_0),
    decreases fuel, 1nat, dirs.len(),
{
    if dirs.len() > 0 {
        lemma_clone_dirs_handed(s, dirs.drop_last(), w, ses, fuel, now);
        let s1 = clone_dirs(s, dirs.drop_last(), w, ses, fuel, now)->Some_0;
        lemma_clone_one_handed(s1, dirs.last(), w, ses, fuel, now);
    }
}

proof fn lemma_clone_one_handed(s: FsView, d: u64, w: u64, ses: i32, fuel: nat, now: SystemTime)
    requires
        entries_ok(s),
        clone_one(s, d, w, ses, fuel, now) is Some,
    ensures
        entries_ok(clone_one(s, d, w, ses, fuel, now)->Some_0),
    decreases fuel, 0nat, 0nat,
{
    let s1 = s.bumped();
    let c = s1.cur_inode;
    let nm = s1.names[d];
    assert(entries_ok(s1));
    let a = s1.with_child(w, nm, c);
    assert(entries_ok(a));
    let b = a.with_name(c, nm);
    assert(entries_ok(b));
    let e = b.with_shadow(c, Some(d));
    assert(entries_ok(e));
    let iv = crate::node::InodeView {
        attr: crate::attr::fresh_attr(c, true, now),
        node: crate::node::writable_dir_view(Seq::empty()),
    };
    assert(entries_ok(e.with_node(c, iv)));
    lemma_clone_handed(e.with_node(c, iv), c, ses, (fuel - 1) as nat, now);
}

proof fn lemma_lookup_handed(s: FsView, ses: Option<i32>, parent: u64, name: Seq<char>, now: SystemTime)
    requires
        entries_ok(s),
        lookup_spec(s, ses, parent, name, now) is Some,
    ensures
        entries_ok(lookup_spec(s, ses, parent, name, now)->Some_0.0),
{
    if !crate::lookup::is_probe_name(name) && ses is Some {
        let x = ses->0;
        let s2 = if s.sessions.contains_key(x) {
            s
        } else {
            with_new_session(s, x, now)->Some_0
        };
        if !s.sessions.contains_key(x) && x != 0 {
            let c = (s.cur_inode + 1) as u64;
            let a = s.bumped();
            assert(entries_ok(a));
            let b = a.with_session(x, c);
            assert(entries_ok(b));
            let iv = crate::node::InodeView {
                attr: crate::attr::fresh_attr(c, true, now),
                node: crate::node::writable_dir_view(Seq::empty()),
            };
            let e = b.with_node(c, iv);
            assert(entries_ok(e));
            let f = e.with_name(c, crate::state::root_name());
            assert(entries_ok(f));
            let t = f.with_shadow(c, Some(1));
            assert(entries_ok(t));
            let fuel = choose|fuel: nat| (#[trigger] clone_fs_spec(t, c, x, fuel, now)) is Some;
            lemma_clone_handed(t, c, x, fuel, now);
        }
        if s.sessions.contains_key(x) || x != 0 {
            if parent != 1 {
                let shadow = if s2.w2r.contains_key(parent) { s2.w2r[parent] } else { None };
                let rd = match shadow { Some(rp) => s2.child_in(rp, name), None => None };
                if rd is Some && s2.nodes.contains_key(rd->0) {
                    assert(entries_ok(s2.with_writable_parent(rd->0, x, parent)));
                }
            }
        }
    }
}

proof fn lemma_write_handed(s: FsView, ses: Option<i32>, ino: u64, offset: u64, data: Seq<u8>, now: SystemTime)
    requires
        entries_ok(s),
        write_spec(s, ses, ino, offset, data, now) is Some,
    ensures
        entries_ok(write_spec(s, ses, ino, offset, data, now)->Some_0.0),
{
    let n = s.nodes[ino].node;
    if n.readable() && !n.writable() {
        let s1 = s.bumped();
        let c = s1.cur_inode;
        assert(entries_ok(s1));
        let iv = crate::node::InodeView {
            attr: crate::attr::fresh_attr(c, false, now),
            node: crate::node::writable_file_view(s1.nodes[ino].node.content()),
        };
        let s2 = s1.with_node(c, iv);
        assert(entries_ok(s2));
        let s3 = s2.with_name(c, s2.names[ino]);
        assert(entries_ok(s3));
        let s4 = match ses {
            None => s3,
            Some(x) => {
                let wp = s3.nodes[ino].node.writable_parent()[x];
                let a = s3.with_child(wp, s3.names[ino], c);
                assert(entries_ok(a));
                let b = a.with_content(c, a.nodes[c].node.content() + a.nodes[ino].node.content());
                assert(entries_ok(b));
                b
            },
        };
        assert(copy_up(s, ses, ino, now) == Some(s4));
        let bytes = s4.nodes[c].node.content();
        assert(entries_ok(s4.with_content(c, crate::write::spliced(bytes, (#[verifier::truncate] (offset as usize)) as int + 1, data))));
    } else if n.writable() {
        assert(entries_ok(s.with_content(ino, crate::write::spliced(n.content(), (#[verifier::truncate] (offset as usize)) as int, data))));
    }
}

/// A write keeps the inodes sound; one that copies a read-only file up
/// makes a writable regular file at the next inode number.
pub proof fn lemma_write_entries(s: FsView, ses: Option<i32>, ino: u64, offset: u64, data: Seq<u8>, now: SystemTime)
    requires
        write_spec(s, ses, ino, offset, data, now) is Some,
    ensures
        crate::handed::attrs_agree(s) ==> crate::handed::attrs_agree(
            write_spec(s, ses, ino, offset, data, now)->Some_0.0,
        ),
        s.nodes[ino].node.readable() && !s.nodes[ino].node.writable() && ino <= s.cur_inode ==> {
            let t = write_spec(s, ses, ino, offset, data, now)->Some_0.0;
            let c = t.cur_inode;
            &&& c == s.cur_inode + 1
            &&& t.nodes.contains_key(c)
            &&& t.nodes[c].attr == crate::attr::fresh_attr(c, false, now)
            &&& !t.nodes[c].node.is_dir()
            &&& t.nodes[c].node.writable()
            &&& t.nodes[ino].node.content() == s.nodes[ino].node.content()
        },
{
    let n = s.nodes[ino].node;
    if n.readable() && !n.writable() {
        let s1 = s.bumped();
        let c = s1.cur_inode;
        let iv = crate::node::InodeView {
            attr: crate::attr::fresh_attr(c, false, now),
            node: crate::node::writable_file_view(s1.nodes[ino].node.content()),
        };
        let s2 = s1.with_node(c, iv);
        let s3 = s2.with_name(c, s2.names[ino]);
        let s4 = match ses {
            None => s3,
            Some(x) => {
                let wp = s3.nodes[ino].node.writable_parent()[x];
                let a = s3.with_child(wp, s3.names[ino], c);
                a.with_content(c, a.nodes[c].node.content() + a.nodes[ino].node.content())
            },
        };
        assert(copy_up(s, ses, ino, now) == Some(s4));
        let bytes = s4.nodes[c].node.content();
        let t = s4.with_content(c, crate::write::spliced(bytes, (#[verifier::truncate] (offset as usize)) as int + 1, data));
        if crate::handed::attrs_agree(s) {
            assert(crate::handed::attrs_agree(s2));
            assert(crate::handed::attrs_agree(s4));
            assert(crate::handed::attrs_agree(t));
        }
    } else if n.writable() {
        if crate::handed::attrs_agree(s) {
            assert(crate::handed::attrs_agree(s.with_content(ino, crate::write::spliced(n.content(), (#[verifier::truncate] (offset as usize)) as int, data))));
        }
    }
}

proof fn lemma_place_handed(t: FsView, p: PayloadView, now: SystemTime)
    requires
        entries_ok(t),
        p matches PayloadView::Dir(k) ==> forall|i: int| 0 <= i < k.len() ==> #[trigger] k[i].1 <= t.cur_inode,
        p matches PayloadView::Dir(k) ==> crate::node::distinct_names(k),
    ensures
        entries_ok(place_payload(t, p, now)),
{
    let c = t.cur_inode;
    match p {
        PayloadView::Dir(k) => {
            let iv = crate::node::InodeView {
                attr: crate::attr::fresh_attr(c, true, now),
                node: crate::node::writable_dir_view(k),
            };
            assert(entries_ok(t.with_node(c, iv)));
        },
        PayloadView::File(b) => {
            let iv = crate::node::InodeView {
                attr: crate::attr::fresh_attr(c, false, now),
                node: crate::node::writable_file_view(b),
            };
            assert(entries_ok(t.with_node(c, iv)));
        },
    }
}

proof fn lemma_payload_handed(t: FsView, ino: u64, bound: int)
    requires
        entries_ok(t),
        t.nodes.contains_key(ino),
        t.cur_inode <= bound,
    ensures
        payload_of(t, ino) matches PayloadView::Dir(k) ==> forall|i: int|
            0 <= i < k.len() ==> #[trigger] k[i].1 <= bound,
        payload_of(t, ino) matches PayloadView::Dir(k) ==> crate::node::distinct_names(k),
{
    if t.nodes[ino].node.is_dir() {
        lemma_dir_entries_handed(t, ino);
        let k = t.children_at(ino);
        assert(payload_of(t, ino) == PayloadView::Dir(k));
        assert forall|i: int| 0 <= i < k.len() implies #[trigger] k[i].1 <= bound by {
            assert(t.children_at(ino)[i].1 <= t.cur_inode);
        }
    }
}

proof fn lemma_rename_handed(
    s: FsView,
    ses: Option<i32>,
    parent: u64,
    name: Seq<char>,
    newparent: u64,
    newname: Seq<char>,
    now: SystemTime,
)
    requires
        entries_ok(s),
        rename_spec(s, ses, parent, name, newparent, newname, now) is Some,
    ensures
        entries_ok(rename_spec(s, ses, parent, name, newparent, newname, now)->Some_0.0),
{
    if parent == 1 && newparent == 1 && ses is Some {
        let x = ses->0;
        let wp = s.sessions[x];
        let (s1, val) = match s.child_in(wp, name) {
            Some(v) => {
                lemma_child_handed(s, wp, name);
                let a = s.with_child(wp, name, 0);
                assert(entries_ok(a));
                assert(entries_ok(a.with_name(v, newname)));
                (a.with_name(v, newname), v)
            },
            None => {
                let s0 = s.bumped();
                assert(entries_ok(s0));
                let a = s0.with_child(wp, name, 0);
                assert(entries_ok(a));
                assert(entries_ok(a.with_name(s0.cur_inode, newname)));
                (a.with_name(s0.cur_inode, newname), s0.cur_inode)
            },
        };
        let s2 = s1.with_child(wp, newname, val);
        assert(entries_ok(s2));
        let child = s2.child_in(1, name)->Some_0;
        lemma_payload_handed(s2, child, s2.cur_inode as int);
        lemma_place_handed(s2, payload_of(s2, child), now);
    } else if parent == 1 && ses is Some {
        let x = ses->0;
        let wp = s.sessions[x];
        let first = match s.child_in(wp, name) {
            Some(ci) => {
                lemma_payload_handed(s, ci, s.cur_inode as int);
                let a = s.with_child(wp, name, 0);
                assert(entries_ok(a));
                let b = a.bumped();
                assert(entries_ok(b));
                let e = b.without_node(ci);
                assert(entries_ok(e));
                assert(entries_ok(e.without_name(ci)));
                (e.without_name(ci), payload_of(s, ci))
            },
            None => {
                let ci = s.child_in(1, name)->Some_0;
                lemma_payload_handed(s, ci, s.cur_inode as int);
                let a = s.with_child(wp, name, 0);
                assert(entries_ok(a));
                (a, payload_of(s, ci))
            },
        };
        let (s2, payload) = first;
        let existing = s2.child_in(newparent, newname);
        if existing is Some && existing->0 != 0 {
            if payload is Dir {
                assert(s2.cur_inode >= s.cur_inode);
                lemma_place_handed(s2, payload, now);
            }
            lemma_place_handed(s2, payload, now);
        } else {
            let s3 = s2.bumped();
            assert(entries_ok(s3));
            let s4 = s3.with_child(newparent, newname, s3.cur_inode);
            assert(entries_ok(s4));
            lemma_place_handed(s4, payload, now);
        }
    } else if parent != 0 && parent != newparent {
        if s.child_in(parent, name) is Some {
            assert(entries_ok(s.with_child(parent, name, 0)));
        }
    }
}

proof fn lemma_remove_handed(s: FsView, ses: Option<i32>, parent: u64, name: Seq<char>)
    requires
        entries_ok(s),
    ensures
        rmdir_spec(s, ses, parent, name) is Some ==> entries_ok(
            rmdir_spec(s, ses, parent, name)->Some_0,
        ),
        unlink_spec(s, ses, parent, name) is Some ==> entries_ok(
            unlink_spec(s, ses, parent, name)->Some_0,
        ),
{
    let dirs: Seq<u64> = if parent == 1 && ses is Some && s.sessions.contains_key(ses->0) {
        seq![parent, s.sessions[ses->0]]
    } else {
        seq![parent]
    };
    assert forall|j: int| 0 <= j < dirs.len() && s.is_dir_at(dirs[j]) implies ({
        let d = #[trigger] dirs[j];
        let a = s.with_child(d, name, 0);
        &&& entries_ok(a)
        &&& forall|c: u64| entries_ok(a.without_node(c).without_name(c))
    }) by {
        let d = dirs[j];
        let a = s.with_child(d, name, 0);
        assert(entries_ok(a));
        assert forall|c: u64| entries_ok(a.without_node(c).without_name(c)) by {
            assert(entries_ok(a.without_node(c)));
        }
    }
    if unlink_spec(s, ses, parent, name) is Some && ses is Some {
        let x = ses->0;
        let d = match s.child_in(parent, name) {
            Some(v) => v,
            None => s.w2r[parent]->Some_0,
        };
        if !s.nodes[d].node.writable() {
            let dir = if parent == 1 { parent } else { d };
            let rf = s.child_in(dir, name)->Some_0;
            let wp = s.nodes[rf].node.writable_parent()[x];
            if s.is_dir_at(wp) {
                assert(entries_ok(s.with_child(wp, name, 0)));
            }
        }
    }
    if rmdir_spec(s, ses, parent, name) is Some && parent == 1 && ses is Some {
        let wr = s.sessions[ses->0];
        if s.is_dir_at(wr) {
            let a = s.with_child(wr, name, 0);
            assert(entries_ok(a));
            assert forall|c: u64| entries_ok(a.without_node(c).without_name(c)) by {
                assert(entries_ok(a.without_node(c)));
            }
        }
    }
}

proof fn lemma_make_handed(s: FsView, ses: Option<i32>, parent: u64, name: Seq<char>, now: SystemTime)
    requires
        entries_ok(s),
    ensures
        mknod_spec(s, parent, name, now) is Some ==> entries_ok(
            mknod_spec(s, parent, name, now)->Some_0.0,
        ),
        mkdir_spec(s, ses, parent, name, now) is Some ==> entries_ok(
            mkdir_spec(s, ses, parent, name, now)->Some_0.0,
        ),
        create_spec(s, ses, parent, name, now) is Some ==> entries_ok(
            create_spec(s, ses, parent, name, now)->Some_0.0,
        ),
{
    if s.cur_inode < u64::MAX {
        let s1 = s.bumped();
        let c = s1.cur_inode;
        assert(entries_ok(s1));
        let fv = crate::node::InodeView {
            attr: crate::attr::fresh_attr(c, false, now),
            node: crate::node::writable_file_view(Seq::empty()),
        };
        let dv = crate::node::InodeView {
            attr: crate::attr::fresh_attr(c, true, now),
            node: crate::node::writable_dir_view(Seq::empty()),
        };
        assert(entries_ok(s1.with_node(c, dv)));
        assert(entries_ok(s1.with_node(c, dv).with_shadow(c, None)));
        assert forall|d: u64| s1.is_dir_at(d) implies ({
            let a = #[trigger] s1.with_child(d, name, c);
            &&& entries_ok(a.with_node(c, fv).with_shadow(c, None))
            &&& entries_ok(a.with_node(c, dv).with_shadow(c, None))
        }) by {
            let a = s1.with_child(d, name, c);
            assert(entries_ok(a));
            assert(entries_ok(a.with_node(c, fv)));
            assert(entries_ok(a.with_node(c, dv)));
            assert(entries_ok(a.with_node(c, fv).with_shadow(c, None)));
            assert(entries_ok(a.with_node(c, dv).with_shadow(c, None)));
        }
    }
}

proof fn lemma_instantiate_handed(s: FsView, parent: u64, name: Seq<char>, kind: ScannedKind, now: SystemTime)
    requires
        entries_ok(s),
        instantiate_spec(s, parent, name, kind, now) is Some,
    ensures
        entries_ok(instantiate_spec(s, parent, name, kind, now)->Some_0),
{
    let s1 = s.bumped();
    let c = s1.cur_inode;
    assert(entries_ok(s1));
    let s2 = s1.with_name(c, name);
    assert(entries_ok(s2));
    let s3 = if s2.nodes.contains_key(parent) {
        assert(entries_ok(s2.with_child(parent, name, c)));
        s2.with_child(parent, name, c)
    } else {
        s2
    };
    let fv = crate::node::InodeView {
        attr: crate::attr::fresh_attr(c, false, now),
        node: crate::scan::readable_file_view(Seq::empty()),
    };
    match kind {
        ScannedKind::File(b) => {
            let iv = crate::node::InodeView {
                attr: crate::attr::fresh_attr(c, false, now),
                node: crate::scan::readable_file_view(b@),
            };
            assert(entries_ok(s3.with_node(c, iv)));
        },
        ScannedKind::Directory => {
            let iv = crate::node::InodeView {
                attr: crate::attr::fresh_attr(c, true, now),
                node: crate::scan::readable_dir_view(),
            };
            assert(entries_ok(s3.with_node(c, iv)));
        },
        ScannedKind::Other => {},
    }
}

proof fn lemma_tree_handed(s: FsView, parent: u64, dir_path: Seq<char>, entries: Seq<ScannedTree>, now: SystemTime)
    requires
        entries_ok(s),
        instantiate_tree_spec(s, parent, dir_path, entries, now) is Some,
    ensures
        entries_ok(instantiate_tree_spec(s, parent, dir_path, entries, now)->Some_0),
    decreases entries,
{
    if entries.len() > 0 {
        let rest = entries.subrange(1, entries.len() as int);
        match entries[0] {
            ScannedTree::File { path, content } => {
                let kind = ScannedKind::File(content);
                let name = strip_spec(dir_path, path@);
                lemma_instantiate_handed(s, parent, name, kind, now);
                let s1 = instantiate_spec(s, parent, name, kind, now)->Some_0;
                lemma_tree_handed(s1, parent, dir_path, rest, now);
            },
            ScannedTree::Directory { path, entries: sub } => {
                let name = strip_spec(dir_path, path@);
                lemma_instantiate_handed(s, parent, name, ScannedKind::Directory, now);
                let s1 = instantiate_spec(s, parent, name, ScannedKind::Directory, now)->Some_0;
                assert(decreases_to!(entries => entries[0]));
                assert(decreases_to!(sub => sub@));
                lemma_tree_handed(s1, s1.cur_inode, path@, sub@, now);
                let s2 = instantiate_tree_spec(s1, s1.cur_inode, path@, sub@, now)->Some_0;
                lemma_tree_handed(s2, parent, dir_path, rest, now);
            },
            ScannedTree::Other { path } => {
                let name = strip_spec(dir_path, path@);
                lemma_instantiate_handed(s, parent, name, ScannedKind::Other, now);
                let s1 = instantiate_spec(s, parent, name, ScannedKind::Other, now)->Some_0;
                lemma_tree_handed(s1, parent, dir_path, rest, now);
            },
        }
    }
}

/// Every request that completes keeps every directory entry naming a number
/// the counter has handed out.
pub proof fn lemma_step_keeps_entries_handed(s: FsView, req: Request, now: SystemTime)
    requires
        entries_ok(s),
        step(s, req, now) is Some,
    ensures
        entries_ok(step(s, req, now)->Some_0),
{
    match req {
        Request::Lookup { ses, parent, name } => lemma_lookup_handed(s, ses, parent, name, now),
        Request::Write { ses, ino, offset, data } => lemma_write_handed(s, ses, ino, offset, data, now),
        Request::Open => {
            lemma_handed_same_nodes(s, step(s, req, now)->Some_0);
            lemma_distinct_same_nodes(s, step(s, req, now)->Some_0);
            assert(step(s, req, now)->Some_0.nodes == s.nodes);
        },
        Request::Rename { ses, parent, name, newparent, newname } => lemma_rename_handed(
            s,
            ses,
            parent,
            name,
            newparent,
            newname,
            now,
        ),
        Request::Rmdir { ses, parent, name } => lemma_remove_handed(s, ses, parent, name),
        Request::Unlink { ses, parent, name } => lemma_remove_handed(s, ses, parent, name),
        Request::Mknod { parent, name } => lemma_make_handed(s, None, parent, name, now),
        Request::Mkdir { ses, parent, name } => lemma_make_handed(s, ses, parent, name, now),
        Request::Create { ses, parent, name } => lemma_make_handed(s, ses, parent, name, now),
        Request::Instantiate { parent, name, kind } => lemma_instantiate_handed(s, parent, name, kind, now),
        Request::InstantiateTree { parent, dir_path, entries } => lemma_tree_handed(
            s,
            parent,
            dir_path,
            entries,
            now,
        ),
    }
}

/// What holds of every state that a new filesystem reaches: inode numbers
/// in use and directory entries are handed out, no directory holds a name
/// twice, and the counter has started.
pub open spec fn reachable_inv(s: FsView) -> bool {
    &&& numbers_handed_out(s)
    &&& entries_ok(s)
    &&& s.cur_inode >= 1
}

/// A new filesystem meets the invariant, and every request that completes
/// keeps it.
pub proof fn lemma_reachable_inv(s: FsView, req: Request, now: SystemTime)
    ensures
        reachable_inv(initial_view(now)),
        reachable_inv(s) && step(s, req, now) is Some ==> reachable_inv(step(s, req, now)->Some_0),
{
    let i = initial_view(now);
    assert(children_handed_out(i)) by {
        assert forall|k: u64, j: int|
            i.is_dir_at(k) && 0 <= j < i.children_at(k).len() implies #[trigger] i.children_at(k)[j].1
            <= i.cur_inode by {
            assert(k == 1);
        }
    }
    assert(crate::handed::attrs_agree(i)) by {
        assert forall|k: u64| i.nodes.contains_key(k) implies (#[trigger] i.nodes[k]).attr.kind
            == i.nodes[k].node.kind() by {
            assert(k == 1);
        }
    }
    assert(crate::handed::names_distinct(i)) by {
        assert forall|k: u64| i.is_dir_at(k) implies crate::node::distinct_names(
            #[trigger] i.children_at(k),
        ) by {
            assert(k == 1);
        }
    }
    if reachable_inv(s) && step(s, req, now) is Some {
        lemma_step_follows(s, req, now);
        lemma_step_keeps_entries_handed(s, req, now);
    }
}

} // verus!
