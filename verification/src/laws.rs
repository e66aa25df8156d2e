//! How the operations answer one another: what a lookup finds after a
//! directory or file is made or removed and what it records, what a read
//! gives back of a write, what a listing shows, what a new directory holds,
//! and what one session's writes and removals leave of the read-only layer.

use crate::attr::FileKind;
use crate::create::{create_spec, mkdir_spec, CreateReply};
use crate::handed::{attrs_agree, children_handed_out, names_distinct};
use crate::preservation::{
    lemma_child_handed, lemma_clone_follows, numbers_handed_out, reachable_inv, step, Request,
};
use crate::lookup::{is_probe_name, lookup_spec, with_new_session, EntryReply};
use crate::node::{distinct_names, has_name, lemma_set_child_same, set_child};
use crate::readdir::{full_listing, listed_dir, readable_listing, readdir_ok, shadow_of, writable_listing};
use crate::remove::{rmdir_spec, unlink_spec};
use crate::clone::clone_fs_spec;
use crate::state::{FsError, FsView};
use crate::attr::Attr;
use crate::write::{spliced, write_spec};
use std::time::SystemTime;
use vstd::prelude::*;

verus! {

/// A directory made by a session in a directory other than the read-only
/// root is found there at once by a lookup of that session, with the
/// attributes that the making reported.
pub proof fn lemma_lookup_after_mkdir(
    s: FsView,
    ses: i32,
    parent: u64,
    name: Seq<char>,
    now: SystemTime,
    later: SystemTime,
)
    requires
        numbers_handed_out(s),
        s.sessions.contains_key(ses),
        parent != 1,
        !is_probe_name(name),
        shadow_of(s, parent) is Some ==> s.is_dir_at(shadow_of(s, parent)->0),
        mkdir_spec(s, Some(ses), parent, name, now) matches Some((_, EntryReply::Entry { .. })),
    ensures
        ({
            let (t, made) = mkdir_spec(s, Some(ses), parent, name, now)->Some_0;
            lookup_spec(t, Some(ses), parent, name, later) == Some((t, made))
        }),
{
    let s1 = s.bumped();
    let c = s1.cur_inode;
    let t = mkdir_spec(s, Some(ses), parent, name, now)->Some_0.0;
    lemma_set_child_same(s1.children_at(parent), name, c);
    assert(parent != c);
    assert(t.children_at(parent) == set_child(s1.children_at(parent), name, c));
    assert(t.child_in(parent, name) == Some(c));
    assert(shadow_of(t, parent) == shadow_of(s, parent));
}

/// A directory made by a session in the read-only root is found there at
/// once by a lookup of that session (through the session's writable root),
/// with the attributes that the making reported, as generation 0.
pub proof fn lemma_lookup_after_mkdir_in_root(s: FsView, ses: i32, name: Seq<char>, now: SystemTime, later: SystemTime)
    requires
        numbers_handed_out(s),
        !is_probe_name(name),
        mkdir_spec(s, Some(ses), 1, name, now) matches Some((_, EntryReply::Entry { .. })),
    ensures
        ({
            let (t, made) = mkdir_spec(s, Some(ses), 1, name, now)->Some_0;
            lookup_spec(t, Some(ses), 1, name, later) == Some(
                (t, EntryReply::Entry { attr: made->attr, generation: 0 }),
            )
        }),
{
    let s1 = s.bumped();
    let c = s1.cur_inode;
    let wr = s1.sessions[ses];
    lemma_set_child_same(s1.children_at(wr), name, c);
    let t = mkdir_spec(s, Some(ses), 1, name, now)->Some_0.0;
    assert(wr != c);
    assert(t.children_at(wr) == set_child(s1.children_at(wr), name, c));
    assert(t.child_in(wr, name) == Some(c));
    assert(t.children_at(1) == s.children_at(1));
}

/// A file created by a session in a directory other than the read-only
/// root is found there at once by a lookup of that session, with the
/// attributes that the creation reported.
pub proof fn lemma_lookup_after_create(
    s: FsView,
    ses: i32,
    parent: u64,
    name: Seq<char>,
    now: SystemTime,
    later: SystemTime,
)
    requires
        numbers_handed_out(s),
        s.sessions.contains_key(ses),
        parent != 1,
        !is_probe_name(name),
        shadow_of(s, parent) is Some ==> s.is_dir_at(shadow_of(s, parent)->0),
        create_spec(s, Some(ses), parent, name, now) matches Some((_, CreateReply::Created { .. })),
    ensures
        ({
            let (t, made) = create_spec(s, Some(ses), parent, name, now)->Some_0;
            lookup_spec(t, Some(ses), parent, name, later) == Some(
                (t, EntryReply::Entry { attr: made->Created_attr, generation: 1 }),
            )
        }),
{
    let s1 = s.bumped();
    let c = s1.cur_inode;
    let t = create_spec(s, Some(ses), parent, name, now)->Some_0.0;
    lemma_set_child_same(s.children_at(parent), name, c);
    assert(parent != c);
    assert(t.children_at(parent) == set_child(s.children_at(parent), name, c));
    assert(t.child_in(parent, name) == Some(c));
    assert(shadow_of(t, parent) == shadow_of(s, parent));
}

/// A writable file removed by a session from a directory other than the
/// read-only root is gone for that session's lookups, whatever the
/// read-only layer holds under the same name.
pub proof fn lemma_lookup_after_unlink(
    s: FsView,
    ses: i32,
    parent: u64,
    name: Seq<char>,
    later: SystemTime,
)
    requires
        s.sessions.contains_key(ses),
        parent != 1,
        !is_probe_name(name),
        shadow_of(s, parent) is Some ==> s.is_dir_at(shadow_of(s, parent)->0),
        s.is_dir_at(parent),
        s.child_in(parent, name) matches Some(v) && s.nodes.contains_key(v) && s.nodes[v].node.writable()
            && v != parent,
        unlink_spec(s, Some(ses), parent, name) is Some,
    ensures
        ({
            let t = unlink_spec(s, Some(ses), parent, name)->Some_0;
            lookup_spec(t, Some(ses), parent, name, later) == Some(
                (t, EntryReply::Error(FsError::NotFound)),
            )
        }),
{
    let v = s.child_in(parent, name)->0;
    let t = unlink_spec(s, Some(ses), parent, name)->Some_0;
    lemma_set_child_same(s.children_at(parent), name, 0);
    assert(t.children_at(parent) == set_child(s.children_at(parent), name, 0));
    assert(t.child_in(parent, name) == Some(0u64));
    if shadow_of(s, parent) is Some {
        let r = shadow_of(s, parent)->0;
        if r == v {
            assert(!t.nodes.contains_key(r));
        }
    }
}

/// A directory removed by a session from a directory other than the
/// read-only root is gone for that session's lookups.
pub proof fn lemma_lookup_after_rmdir(
    s: FsView,
    ses: i32,
    parent: u64,
    name: Seq<char>,
    later: SystemTime,
)
    requires
        s.sessions.contains_key(ses),
        parent != 1,
        !is_probe_name(name),
        shadow_of(s, parent) is Some ==> s.is_dir_at(shadow_of(s, parent)->0),
        s.child_in(parent, name) matches Some(v) && v != parent,
        rmdir_spec(s, Some(ses), parent, name) is Some,
    ensures
        ({
            let t = rmdir_spec(s, Some(ses), parent, name)->Some_0;
            lookup_spec(t, Some(ses), parent, name, later) == Some(
                (t, EntryReply::Error(FsError::NotFound)),
            )
        }),
{
    let v = s.child_in(parent, name)->0;
    let t = rmdir_spec(s, Some(ses), parent, name)->Some_0;
    lemma_set_child_same(s.children_at(parent), name, 0);
    assert(t.children_at(parent) == set_child(s.children_at(parent), name, 0));
    assert(t.child_in(parent, name) == Some(0u64));
    if shadow_of(s, parent) is Some {
        let r = shadow_of(s, parent)->0;
        if r == v {
            assert(!t.nodes.contains_key(r));
        }
    }
}

/// Writing into a writable file and reading it back from the start gives
/// the old bytes with the data inserted at the offset.
pub proof fn lemma_read_after_write(
    s: FsView,
    ses: Option<i32>,
    ino: u64,
    offset: u64,
    data: Seq<u8>,
    now: SystemTime,
)
    requires
        s.is_file_at(ino),
        s.nodes[ino].node.writable(),
        write_spec(s, ses, ino, offset, data, now) is Some,
    ensures
        ({
            let t = write_spec(s, ses, ino, offset, data, now)->Some_0.0;
            &&& t.is_file_at(ino)
            &&& t.nodes[ino].node.content().skip(0) == spliced(
                s.nodes[ino].node.content(),
                (offset as usize) as int,
                data,
            )
        }),
{
    let t = write_spec(s, ses, ino, offset, data, now)->Some_0.0;
    assert(t.nodes[ino].node.content().skip(0) =~= t.nodes[ino].node.content());
}

/// Writing into a read-only file leaves its bytes as they were: the data
/// goes into a new writable copy, the last inode handed out.
pub proof fn lemma_copy_up_keeps_source(
    s: FsView,
    ses: Option<i32>,
    ino: u64,
    offset: u64,
    data: Seq<u8>,
    now: SystemTime,
)
    requires
        numbers_handed_out(s),
        s.is_file_at(ino),
        s.nodes[ino].node.readable(),
        !s.nodes[ino].node.writable(),
        write_spec(s, ses, ino, offset, data, now) is Some,
    ensures
        ({
            let t = write_spec(s, ses, ino, offset, data, now)->Some_0.0;
            &&& t.is_file_at(ino)
            &&& t.nodes[ino].node.content() == s.nodes[ino].node.content()
            &&& t.cur_inode == s.cur_inode + 1
            &&& t.is_file_at(t.cur_inode)
            &&& t.nodes[t.cur_inode].node.writable()
        }),
{
}

/// A listing ends with "." and "..", both naming the listed directory.
pub proof fn lemma_listing_ends_with_dots(s: FsView, ses: Option<i32>, ino: u64)
    ensures
        ({
            let l = full_listing(s, ses, ino);
            let w = listed_dir(s, ses, ino);
            &&& l.len() >= 2
            &&& l[l.len() - 2] == (w, FileKind::Directory, seq!['.'])
            &&& l[l.len() - 1] == (w, FileKind::Directory, seq!['.', '.'])
        }),
{
}

proof fn lemma_writable_listing_live(s: FsView, kids: Seq<(Seq<char>, u64)>)
    requires
        forall|i: int| 0 <= i < kids.len() && (#[trigger] kids[i]).1 != 0 ==> s.nodes.contains_key(kids[i].1),
    ensures
        forall|i: int|
            0 <= i < writable_listing(s, kids).len() ==> s.nodes.contains_key(
                (#[trigger] writable_listing(s, kids)[i]).0,
            ),
    decreases kids.len(),
{
    if kids.len() > 0 {
        let k = kids.drop_last();
        assert forall|i: int| 0 <= i < k.len() && (#[trigger] k[i]).1 != 0 implies s.nodes.contains_key(
            k[i].1,
        ) by {
            assert(k[i] == kids[i]);
        }
        lemma_writable_listing_live(s, k);
        assert(kids[kids.len() - 1] == kids.last());
        let prev = writable_listing(s, k);
        let l = writable_listing(s, kids);
        assert forall|i: int| 0 <= i < l.len() implies s.nodes.contains_key((#[trigger] l[i]).0) by {
            if i < prev.len() {
                assert(l[i] == prev[i]);
            }
        }
    }
}

proof fn lemma_readable_listing_live(s: FsView, kids: Seq<(Seq<char>, u64)>, over: Seq<(Seq<char>, u64)>)
    ensures
        forall|i: int|
            0 <= i < readable_listing(s, kids, over).len() ==> s.nodes.contains_key(
                (#[trigger] readable_listing(s, kids, over)[i]).0,
            ),
    decreases kids.len(),
{
    if kids.len() > 0 {
        lemma_readable_listing_live(s, kids.drop_last(), over);
        let prev = readable_listing(s, kids.drop_last(), over);
        let l = readable_listing(s, kids, over);
        assert forall|i: int| 0 <= i < l.len() implies s.nodes.contains_key((#[trigger] l[i]).0) by {
            if i < prev.len() {
                assert(l[i] == prev[i]);
            }
        }
    }
}

/// Every inode that a listing shows exists; so none is the deletion mark 0
/// where no inode 0 exists.
pub proof fn lemma_listing_shows_live_inodes(s: FsView, ses: Option<i32>, ino: u64)
    requires
        readdir_ok(s, ses, ino),
    ensures
        forall|i: int|
            0 <= i < full_listing(s, ses, ino).len() ==> s.nodes.contains_key(
                (#[trigger] full_listing(s, ses, ino)[i]).0,
            ),
        !s.nodes.contains_key(0) ==> forall|i: int|
            0 <= i < full_listing(s, ses, ino).len() ==> (#[trigger] full_listing(s, ses, ino)[i]).0
                != 0,
{
    let w = listed_dir(s, ses, ino);
    let wk = s.children_at(w);
    lemma_writable_listing_live(s, wk);
    let shown = match shadow_of(s, w) {
        Some(r) => readable_listing(s, s.children_at(r), wk),
        None => Seq::empty(),
    };
    if shadow_of(s, w) is Some {
        lemma_readable_listing_live(s, s.children_at(shadow_of(s, w)->0), wk);
    }
    let l = full_listing(s, ses, ino);
    let a = writable_listing(s, wk);
    assert forall|i: int| 0 <= i < l.len() implies s.nodes.contains_key(#[trigger] l[i].0) by {
        if i < a.len() {
            assert(l[i] == a[i]);
        } else if i < a.len() + shown.len() {
            assert(l[i] == shown[i - a.len()]);
        }
    }
}

/// Each line of a writable listing comes from a live entry of `kids` with
/// the same name and inode; where `kids` holds no name twice, neither does
/// the listing.
proof fn lemma_writable_listing_names(s: FsView, kids: Seq<(Seq<char>, u64)>)
    ensures
        forall|i: int|
            0 <= i < writable_listing(s, kids).len() ==> exists|j: int|
                0 <= j < kids.len() && (#[trigger] kids[j]).0 == (#[trigger] writable_listing(
                    s,
                    kids,
                )[i]).2 && kids[j].1 == writable_listing(s, kids)[i].0 && kids[j].1 != 0,
        distinct_names(kids) ==> forall|i: int, k: int|
            0 <= i < k < writable_listing(s, kids).len() ==> (#[trigger] writable_listing(s, kids)[i]).2
                != (#[trigger] writable_listing(s, kids)[k]).2,
    decreases kids.len(),
{
    if kids.len() > 0 {
        let d = kids.drop_last();
        lemma_writable_listing_names(s, d);
        let prev = writable_listing(s, d);
        let l = writable_listing(s, kids);
        assert forall|i: int| #![trigger prev[i]] 0 <= i < prev.len() implies exists|j: int|
            0 <= j < kids.len() && (#[trigger] kids[j]).0 == prev[i].2 && kids[j].1 == prev[i].0
                && kids[j].1 != 0 by {
            let j = choose|j: int|
                0 <= j < d.len() && (#[trigger] d[j]).0 == prev[i].2 && d[j].1 == prev[i].0 && d[j].1
                    != 0;
            assert(kids[j] == d[j]);
        }
        assert forall|i: int| #![trigger l[i]] 0 <= i < l.len() implies exists|j: int|
            0 <= j < kids.len() && (#[trigger] kids[j]).0 == l[i].2 && kids[j].1 == l[i].0
                && kids[j].1 != 0 by {
            if i < prev.len() {
                assert(l[i] == prev[i]);
            } else {
                assert(kids[kids.len() - 1] == kids.last());
            }
        }
        if distinct_names(kids) {
            assert(distinct_names(d)) by {
                assert forall|a: int, b: int| 0 <= a < b < d.len() implies (#[trigger] d[a]).0
                    != (#[trigger] d[b]).0 by {
                    assert(d[a] == kids[a] && d[b] == kids[b]);
                }
            }
            assert forall|i: int, k: int| 0 <= i < k < l.len() implies (#[trigger] l[i]).2
                != (#[trigger] l[k]).2 by {
                if k < prev.len() {
                    assert(l[i] == prev[i] && l[k] == prev[k]);
                } else {
                    assert(l[i] == prev[i]);
                    let j = choose|j: int|
                        0 <= j < d.len() && (#[trigger] d[j]).0 == prev[i].2 && d[j].1 == prev[i].0
                            && d[j].1 != 0;
                    assert(d[j] == kids[j]);
                    assert(kids[j].0 != kids[kids.len() - 1].0);
                }
            }
        }
    }
}

/// Each line of a read-only listing comes from an entry of `kids` whose
/// name `over` lacks; where `kids` holds no name twice, neither does the
/// listing.
proof fn lemma_readable_listing_names(
    s: FsView,
    kids: Seq<(Seq<char>, u64)>,
    over: Seq<(Seq<char>, u64)>,
)
    ensures
        forall|i: int|
            0 <= i < readable_listing(s, kids, over).len() ==> has_name(
                kids,
                (#[trigger] readable_listing(s, kids, over)[i]).2,
            ) && !has_name(over, readable_listing(s, kids, over)[i].2),
        distinct_names(kids) ==> forall|i: int, k: int|
            0 <= i < k < readable_listing(s, kids, over).len() ==> (#[trigger] readable_listing(
                s,
                kids,
                over,
            )[i]).2 != (#[trigger] readable_listing(s, kids, over)[k]).2,
    decreases kids.len(),
{
    if kids.len() > 0 {
        let d = kids.drop_last();
        lemma_readable_listing_names(s, d, over);
        let prev = readable_listing(s, d, over);
        let l = readable_listing(s, kids, over);
        assert forall|i: int| 0 <= i < l.len() implies has_name(kids, (#[trigger] l[i]).2) && !has_name(
            over,
            l[i].2,
        ) by {
            if i < prev.len() {
                assert(l[i] == prev[i]);
                assert(has_name(d, prev[i].2));
                let j = choose|j: int| 0 <= j < d.len() && (#[trigger] d[j]).0 == prev[i].2;
                assert(kids[j] == d[j]);
            } else {
                assert(kids[kids.len() - 1] == kids.last());
            }
        }
        if distinct_names(kids) {
            assert(distinct_names(d)) by {
                assert forall|a: int, b: int| 0 <= a < b < d.len() implies (#[trigger] d[a]).0
                    != (#[trigger] d[b]).0 by {
                    assert(d[a] == kids[a] && d[b] == kids[b]);
                }
            }
            assert forall|i: int, k: int| 0 <= i < k < l.len() implies (#[trigger] l[i]).2
                != (#[trigger] l[k]).2 by {
                if k < prev.len() {
                    assert(l[i] == prev[i] && l[k] == prev[k]);
                } else {
                    assert(l[i] == prev[i]);
                    assert(has_name(d, prev[i].2));
                    let j = choose|j: int| 0 <= j < d.len() && (#[trigger] d[j]).0 == prev[i].2;
                    assert(d[j] == kids[j]);
                    assert(kids[j].0 != kids[kids.len() - 1].0);
                }
            }
        }
    }
}

/// Where no directory holds a name twice, and neither the listed directory
/// nor the read-only directory it shadows holds "." or "..", a listing
/// names each name at most once, and no name it shows is marked deleted in
/// the listed directory.
pub proof fn lemma_listing_names_once(s: FsView, ses: Option<i32>, ino: u64)
    requires
        names_distinct(s),
        readdir_ok(s, ses, ino),
        !has_name(s.children_at(listed_dir(s, ses, ino)), seq!['.']),
        !has_name(s.children_at(listed_dir(s, ses, ino)), seq!['.', '.']),
        shadow_of(s, listed_dir(s, ses, ino)) is Some ==> !has_name(
            s.children_at(shadow_of(s, listed_dir(s, ses, ino))->0),
            seq!['.'],
        ),
        shadow_of(s, listed_dir(s, ses, ino)) is Some ==> !has_name(
            s.children_at(shadow_of(s, listed_dir(s, ses, ino))->0),
            seq!['.', '.'],
        ),
    ensures
        forall|i: int, k: int|
            0 <= i < k < full_listing(s, ses, ino).len() ==> (#[trigger] full_listing(s, ses, ino)[i]).2
                != (#[trigger] full_listing(s, ses, ino)[k]).2,
        forall|i: int, j: int|
            0 <= i < full_listing(s, ses, ino).len() && 0 <= j < s.children_at(
                listed_dir(s, ses, ino),
            ).len() && (#[trigger] s.children_at(listed_dir(s, ses, ino))[j]).0 == (
            #[trigger] full_listing(s, ses, ino)[i]).2 ==> s.children_at(listed_dir(s, ses, ino))[j].1
                != 0,
{
    let w = listed_dir(s, ses, ino);
    let wk = s.children_at(w);
    assert(distinct_names(wk));
    lemma_writable_listing_names(s, wk);
    let a = writable_listing(s, wk);
    let shown = match shadow_of(s, w) {
        Some(r) => readable_listing(s, s.children_at(r), wk),
        None => Seq::empty(),
    };
    if shadow_of(s, w) is Some {
        let r = shadow_of(s, w)->0;
        assert(distinct_names(s.children_at(r)));
        lemma_readable_listing_names(s, s.children_at(r), wk);
    }
    let l = full_listing(s, ses, ino);
    let dot: Seq<char> = seq!['.'];
    let dotdot: Seq<char> = seq!['.', '.'];
    assert(dot != dotdot) by {
        assert(dot.len() != dotdot.len());
    }
    assert(l.len() == a.len() + shown.len() + 2);
    assert(l[(a.len() + shown.len()) as int].2 == dot);
    assert(l[a.len() + shown.len() + 1int].2 == dotdot);
    // Where each line comes from, and what that says of its name.
    assert forall|i: int| 0 <= i < a.len() + shown.len() implies {
        &&& (#[trigger] l[i]).2 != dot
        &&& l[i].2 != dotdot
        &&& i < a.len() ==> l[i] == a[i] && has_name(wk, l[i].2)
        &&& i >= a.len() ==> l[i] == shown[i - a.len()] && !has_name(wk, l[i].2)
            && has_name(s.children_at(shadow_of(s, w)->0), l[i].2)
    } by {
        if i < a.len() {
            assert(l[i] == a[i]);
            let j = choose|j: int|
                0 <= j < wk.len() && (#[trigger] wk[j]).0 == a[i].2 && wk[j].1 == a[i].0 && wk[j].1 != 0;
            assert(has_name(wk, a[i].2));
        } else {
            assert(l[i] == shown[i - a.len()]);
        }
    }
    assert forall|i: int, k: int| 0 <= i < k < l.len() implies (#[trigger] l[i]).2
        != (#[trigger] l[k]).2 by {
        if k < a.len() {
        } else if k < a.len() + shown.len() {
            if i >= a.len() {
                assert(shown[i - a.len()] == l[i] && shown[k - a.len()] == l[k]);
            }
        } else if i < a.len() + shown.len() {
        }
    }
    assert forall|i: int, j: int|
        0 <= i < l.len() && 0 <= j < wk.len() && (#[trigger] wk[j]).0 == (#[trigger] l[i]).2 implies wk[j].1
        != 0 by {
        if i < a.len() {
            let j2 = choose|j2: int|
                0 <= j2 < wk.len() && (#[trigger] wk[j2]).0 == a[i].2 && wk[j2].1 == a[i].0 && wk[j2].1
                    != 0;
            if j != j2 {
                if j < j2 {
                    assert(wk[j].0 != wk[j2].0);
                } else {
                    assert(wk[j2].0 != wk[j].0);
                }
            }
        } else if i < a.len() + shown.len() {
            assert(has_name(wk, l[i].2));
        } else if i == a.len() + shown.len() {
            assert(has_name(wk, dot));
        } else {
            assert(has_name(wk, dotdot));
        }
    }
}

/// Two opens in a row hand out two handles, the second one past the first.
pub proof fn lemma_open_handles_increase(s: FsView, now: SystemTime)
    requires
        step(s, Request::Open, now) is Some,
        step(step(s, Request::Open, now)->Some_0, Request::Open, now) is Some,
    ensures
        step(step(s, Request::Open, now)->Some_0, Request::Open, now)->Some_0.cur_fh == step(
            s,
            Request::Open,
            now,
        )->Some_0.cur_fh + 1,
        step(s, Request::Open, now)->Some_0.cur_fh == s.cur_fh + 1,
{
}

/// A session whose lookup is served has a writable root afterwards, unless
/// the name is a probe name or the session is 0 and new.
pub proof fn lemma_lookup_starts_session(
    s: FsView,
    ses: i32,
    parent: u64,
    name: Seq<char>,
    now: SystemTime,
)
    requires
        !is_probe_name(name),
        s.sessions.contains_key(ses) || ses != 0,
        lookup_spec(s, Some(ses), parent, name, now) is Some,
    ensures
        lookup_spec(s, Some(ses), parent, name, now)->Some_0.0.sessions.contains_key(ses),
{
    if !s.sessions.contains_key(ses) {
        let c = (s.cur_inode + 1) as u64;
        let s1 = s.bumped().with_session(ses, c).with_node(
            c,
            crate::node::InodeView {
                attr: crate::attr::fresh_attr(c, true, now),
                node: crate::node::writable_dir_view(Seq::empty()),
            },
        ).with_name(c, crate::state::root_name()).with_shadow(c, Some(1));
        let fuel = choose|fuel: nat| (#[trigger] clone_fs_spec(s1, c, ses, fuel, now)) is Some;
        lemma_clone_follows(s1, c, ses, fuel, now);
        let t = with_new_session(s, ses, now)->Some_0;
        assert(t.sessions.contains_key(ses));
        match lookup_spec(s, Some(ses), parent, name, now) {
            Some((u, _)) => {
                if parent != 1 {
                    let shadow = if t.w2r.contains_key(parent) { t.w2r[parent] } else { None };
                    let rd = match shadow { Some(rp) => t.child_in(rp, name), None => None };
                    if rd is Some && t.nodes.contains_key(rd->0) && !t.nodes[rd->0].node.is_dir() {
                        assert(u.sessions == t.sessions);
                    }
                }
            },
            None => {},
        }
    }
}

/// Sessions do not see one another's changes: a directory that one session
/// makes in the read-only root leaves what another session (with a writable
/// root of its own) finds there as it was.
pub proof fn lemma_mkdir_leaves_other_sessions(
    s: FsView,
    x: i32,
    y: i32,
    newname: Seq<char>,
    name: Seq<char>,
    now: SystemTime,
    later: SystemTime,
)
    requires
        reachable_inv(s),
        s.sessions.contains_key(x),
        s.sessions.contains_key(y),
        s.sessions[x] != s.sessions[y],
        !is_probe_name(name),
        mkdir_spec(s, Some(x), 1, newname, now) is Some,
        lookup_spec(s, Some(y), 1, name, later) is Some,
    ensures
        ({
            let t = mkdir_spec(s, Some(x), 1, newname, now)->Some_0.0;
            lookup_spec(t, Some(y), 1, name, later) == Some(
                (t, lookup_spec(s, Some(y), 1, name, later)->Some_0.1),
            )
        }),
{
    let t = mkdir_spec(s, Some(x), 1, newname, now)->Some_0.0;
    let wx = s.sessions[x];
    let wy = s.sessions[y];
    let c = (s.cur_inode + 1) as u64;
    assert(t.sessions == s.sessions);
    assert(1 != c);
    assert(t.children_at(1) == s.children_at(1));
    assert(t.child_in(1, name) == s.child_in(1, name));
    if s.nodes.contains_key(wy) {
        assert(wy <= s.cur_inode);
        assert(wy != c);
        assert(t.child_in(wy, name) == s.child_in(wy, name));
    } else if wy != c {
        assert(!t.nodes.contains_key(wy));
    } else {
        assert(t.child_in(wy, name) is None);
    }
    let rd = s.child_in(1, name);
    let wd = s.child_in(wy, name);
    if rd is Some && s.is_dir_at(1) {
        lemma_child_handed(s, 1, name);
    }
    if wd is Some && s.is_dir_at(wy) {
        lemma_child_handed(s, wy, name);
    }
}

/// A lookup by a known session that finds a read-only file through the
/// directory that writable directory `parent` shadows, where `parent` lacks
/// the name, records `parent` as that session's writable parent of the file,
/// and changes nothing else of the file nor the entries of any directory.
pub proof fn lemma_lookup_records_writable_parent(
    s: FsView,
    ses: i32,
    parent: u64,
    name: Seq<char>,
    now: SystemTime,
)
    requires
        s.sessions.contains_key(ses),
        parent != 1,
        !is_probe_name(name),
        shadow_of(s, parent) is Some,
        s.child_in(parent, name) is None,
        s.child_in(shadow_of(s, parent)->0, name) is Some,
        s.is_file_at(s.child_in(shadow_of(s, parent)->0, name)->0),
        lookup_spec(s, Some(ses), parent, name, now) is Some,
    ensures
        ({
            let t = lookup_spec(s, Some(ses), parent, name, now)->Some_0.0;
            let f = s.child_in(shadow_of(s, parent)->0, name)->0;
            &&& t.nodes.contains_key(f)
            &&& t.nodes[f].node.writable_parent().contains_key(ses)
            &&& t.nodes[f].node.writable_parent()[ses] == parent
            &&& t.nodes[f].node.content() == s.nodes[f].node.content()
            &&& t.nodes[f].attr == s.nodes[f].attr
            &&& forall|k: u64| #[trigger]
                s.nodes.contains_key(k) ==> t.nodes.contains_key(k) && t.children_at(k) == s.children_at(k)
        }),
{
    let t = lookup_spec(s, Some(ses), parent, name, now)->Some_0.0;
    assert forall|k: u64| #[trigger]
        s.nodes.contains_key(k) implies t.nodes.contains_key(k) && t.children_at(k) == s.children_at(
        k,
    ) by {}
}

/// Each line of a listing gives the kind of the inode it names, "." and
/// ".." included.
pub proof fn lemma_listing_kinds(s: FsView, ses: Option<i32>, ino: u64)
    requires
        readdir_ok(s, ses, ino),
    ensures
        forall|i: int|
            0 <= i < full_listing(s, ses, ino).len() ==> (#[trigger] full_listing(s, ses, ino)[i]).1
                == s.nodes[full_listing(s, ses, ino)[i].0].node.kind(),
{
    let w = listed_dir(s, ses, ino);
    let wk = s.children_at(w);
    lemma_writable_listing_kinds(s, wk);
    let a = writable_listing(s, wk);
    let shown = match shadow_of(s, w) {
        Some(r) => readable_listing(s, s.children_at(r), wk),
        None => Seq::empty(),
    };
    if shadow_of(s, w) is Some {
        lemma_readable_listing_kinds(s, s.children_at(shadow_of(s, w)->0), wk);
    }
    let l = full_listing(s, ses, ino);
    assert forall|i: int| 0 <= i < l.len() implies (#[trigger] l[i]).1 == s.nodes[l[i].0].node.kind() by {
        if i < a.len() {
            assert(l[i] == a[i]);
        } else if i < a.len() + shown.len() {
            assert(l[i] == shown[i - a.len()]);
        }
    }
}

proof fn lemma_writable_listing_kinds(s: FsView, kids: Seq<(Seq<char>, u64)>)
    ensures
        forall|i: int|
            0 <= i < writable_listing(s, kids).len() ==> (#[trigger] writable_listing(s, kids)[i]).1
                == s.nodes[writable_listing(s, kids)[i].0].node.kind(),
    decreases kids.len(),
{
    if kids.len() > 0 {
        lemma_writable_listing_kinds(s, kids.drop_last());
        let prev = writable_listing(s, kids.drop_last());
        let l = writable_listing(s, kids);
        assert forall|i: int| 0 <= i < l.len() implies (#[trigger] l[i]).1 == s.nodes[l[i].0].node.kind() by {
            if i < prev.len() {
                assert(l[i] == prev[i]);
            }
        }
    }
}

proof fn lemma_readable_listing_kinds(s: FsView, kids: Seq<(Seq<char>, u64)>, over: Seq<(Seq<char>, u64)>)
    ensures
        forall|i: int|
            0 <= i < readable_listing(s, kids, over).len() ==> (#[trigger] readable_listing(s, kids, over)[i]).1
                == s.nodes[readable_listing(s, kids, over)[i].0].node.kind(),
    decreases kids.len(),
{
    if kids.len() > 0 {
        lemma_readable_listing_kinds(s, kids.drop_last(), over);
        let prev = readable_listing(s, kids.drop_last(), over);
        let l = readable_listing(s, kids, over);
        assert forall|i: int| 0 <= i < l.len() implies (#[trigger] l[i]).1 == s.nodes[l[i].0].node.kind() by {
            if i < prev.len() {
                assert(l[i] == prev[i]);
            }
        }
    }
}

/// Where every inode's attributes agree with what it holds, a write keeps
/// them so; a write that copies a read-only file up makes a regular file
/// of the writable layer, with the next inode number and attributes that
/// say so, and leaves the read-only file's bytes alone (where the file's
/// number has been handed out).
pub proof fn lemma_copy_up_makes_regular_file(
    s: FsView,
    ses: Option<i32>,
    ino: u64,
    offset: u64,
    data: Seq<u8>,
    now: SystemTime,
)
    requires
        write_spec(s, ses, ino, offset, data, now) is Some,
    ensures
        attrs_agree(s) ==> attrs_agree(write_spec(s, ses, ino, offset, data, now)->Some_0.0),
        s.nodes[ino].node.readable() && !s.nodes[ino].node.writable() && ino <= s.cur_inode ==> {
            let t = write_spec(s, ses, ino, offset, data, now)->Some_0.0;
            let c = t.cur_inode;
            &&& c == s.cur_inode + 1
            &&& t.nodes.contains_key(c)
            &&& t.nodes[c].attr.kind == FileKind::RegularFile
            &&& t.nodes[c].attr.ino == c
            &&& !t.nodes[c].node.is_dir()
            &&& t.nodes[c].node.writable()
            &&& t.nodes[ino].node.content() == s.nodes[ino].node.content()
        },
{
    crate::preservation::lemma_write_entries(s, ses, ino, offset, data, now);
}

/// Where a session removes a file from a writable directory, and every
/// writable parent that the session has recorded is, where it is a
/// directory, a writable one: the entries of every read-only directory stay
/// as they were, so what the read-only layer shows other sessions is
/// unchanged.
pub proof fn lemma_unlink_keeps_readonly_dirs(s: FsView, ses: i32, parent: u64, name: Seq<char>)
    requires
        forall|f: u64|
            #![trigger s.nodes[f].node.writable_parent()]
            s.nodes.contains_key(f) && s.nodes[f].node.writable_parent().contains_key(ses) && s.is_dir_at(
                s.nodes[f].node.writable_parent()[ses],
            ) ==> s.nodes[s.nodes[f].node.writable_parent()[ses]].node.writable(),
        s.nodes.contains_key(parent),
        s.nodes[parent].node.writable(),
        unlink_spec(s, Some(ses), parent, name) is Some,
    ensures
        ({
            let t = unlink_spec(s, Some(ses), parent, name)->Some_0;
            forall|k: u64|
                s.is_dir_at(k) && !(#[trigger] s.nodes[k]).node.writable() ==> t.is_dir_at(k)
                    && t.children_at(k) == s.children_at(k) && !t.nodes[k].node.writable()
        }),
{
    let t = unlink_spec(s, Some(ses), parent, name)->Some_0;
    let found = s.child_in(parent, name);
    let d = match found {
        Some(v) => v,
        None => s.w2r[parent]->Some_0,
    };
    if s.nodes[d].node.writable() {
        assert forall|k: u64| s.is_dir_at(k) && !(#[trigger] s.nodes[k]).node.writable() implies t.is_dir_at(k)
            && t.children_at(k) == s.children_at(k) && !t.nodes[k].node.writable() by {
            assert(k != parent && k != d);
        }
    } else {
        let dir = if parent == 1 { parent } else { d };
        let rf = s.child_in(dir, name)->0;
        let wp = s.nodes[rf].node.writable_parent()[ses];
        assert(s.nodes[wp].node.writable());
        assert forall|k: u64| s.is_dir_at(k) && !(#[trigger] s.nodes[k]).node.writable() implies t.is_dir_at(k)
            && t.children_at(k) == s.children_at(k) && !t.nodes[k].node.writable() by {
            assert(k != wp);
        }
    }
}

/// A directory that mkdir makes is empty and shadows nothing: it lists only
/// "." and ".." for any session, and a known session's lookup of any name
/// in it answers that the name is not found.
pub proof fn lemma_mkdir_makes_empty_dir(
    s: FsView,
    ses: Option<i32>,
    parent: u64,
    name: Seq<char>,
    now: SystemTime,
)
    requires
        s.cur_inode >= 1,
        mkdir_spec(s, ses, parent, name, now) matches Some((_, EntryReply::Entry { .. })),
    ensures
        ({
            let (t, r) = mkdir_spec(s, ses, parent, name, now)->Some_0;
            let c = r->Entry_attr.ino;
            &&& c == s.cur_inode + 1
            &&& t.is_dir_at(c)
            &&& t.children_at(c).len() == 0
            &&& shadow_of(t, c) is None
            &&& forall|y: Option<i32>|
                #[trigger] full_listing(t, y, c) == seq![
                    (c, FileKind::Directory, seq!['.']),
                    (c, FileKind::Directory, seq!['.', '.']),
                ]
            &&& forall|y: i32, n: Seq<char>, later: SystemTime|
                t.sessions.contains_key(y) ==> #[trigger] lookup_spec(t, Some(y), c, n, later) == Some(
                    (t, EntryReply::Error(FsError::NotFound)),
                )
        }),
{
    let (t, r) = mkdir_spec(s, ses, parent, name, now)->Some_0;
    let c = r->Entry_attr.ino;
    assert(t.children_at(c) =~= Seq::<(Seq<char>, u64)>::empty());
    assert forall|y: Option<i32>| #[trigger] full_listing(t, y, c) == seq![
        (c, FileKind::Directory, seq!['.']),
        (c, FileKind::Directory, seq!['.', '.']),
    ] by {
        assert(listed_dir(t, y, c) == c);
        assert(writable_listing(t, t.children_at(c)) =~= Seq::<(u64, FileKind, Seq<char>)>::empty());
        assert(full_listing(t, y, c) =~= seq![
            (c, FileKind::Directory, seq!['.']),
            (c, FileKind::Directory, seq!['.', '.']),
        ]);
    }
    assert forall|y: i32, n: Seq<char>, later: SystemTime|
        t.sessions.contains_key(y) implies #[trigger] lookup_spec(t, Some(y), c, n, later) == Some(
        (t, EntryReply::Error(FsError::NotFound)),
    ) by {
        assert(t.child_in(c, n) is None);
    }
}

/// Where every writable parent that session `ses` has recorded is, where
/// it is a directory, a writable one, a write by that session leaves the
/// entries of every read-only directory as they were: one session's write
/// never shows in what the read-only layer holds for the others.
pub proof fn lemma_write_keeps_readonly_dirs(
    s: FsView,
    ses: i32,
    ino: u64,
    offset: u64,
    data: Seq<u8>,
    now: SystemTime,
)
    requires
        forall|f: u64|
            #![trigger s.nodes[f].node.writable_parent()]
            s.nodes.contains_key(f) && s.nodes[f].node.writable_parent().contains_key(ses) && s.is_dir_at(
                s.nodes[f].node.writable_parent()[ses],
            ) ==> s.nodes[s.nodes[f].node.writable_parent()[ses]].node.writable(),
        write_spec(s, Some(ses), ino, offset, data, now) is Some,
    ensures
        ({
            let t = write_spec(s, Some(ses), ino, offset, data, now)->Some_0.0;
            forall|k: u64|
                s.is_dir_at(k) && !(#[trigger] s.nodes[k]).node.writable() && k != t.cur_inode
                    ==> t.is_dir_at(k) && t.children_at(k) == s.children_at(k) && !t.nodes[k].node.writable()
        }),
{
    let t = write_spec(s, Some(ses), ino, offset, data, now)->Some_0.0;
    let n = s.nodes[ino].node;
    if n.readable() && !n.writable() {
        let s1 = s.bumped();
        let c = s1.cur_inode;
        let wp = s.nodes[ino].node.writable_parent()[ses];
        assert(s.is_dir_at(wp));
        assert(s.nodes[wp].node.writable());
        assert forall|k: u64|
            s.is_dir_at(k) && !(#[trigger] s.nodes[k]).node.writable() && k != t.cur_inode implies t.is_dir_at(k)
            && t.children_at(k) == s.children_at(k) && !t.nodes[k].node.writable() by {
            assert(k != wp && k != c);
        }
    } else if n.writable() {
        assert forall|k: u64|
            s.is_dir_at(k) && !(#[trigger] s.nodes[k]).node.writable() && k != t.cur_inode implies t.is_dir_at(k)
            && t.children_at(k) == s.children_at(k) && !t.nodes[k].node.writable() by {
            assert(k != ino);
        }
    }
}

/// A lookup by a session that already has its writable layer changes
/// nothing but, where it finds a read-only file through the directory that
/// `parent` shadows, the file's writable parent for that session: no inode
/// appears or goes, no entry, byte or attribute changes, and the counters,
/// names, shadows and sessions stay as they were. In the read-only root it
/// changes nothing at all.
pub proof fn lemma_lookup_changes_little(s: FsView, ses: i32, parent: u64, name: Seq<char>, now: SystemTime)
    requires
        s.sessions.contains_key(ses),
        lookup_spec(s, Some(ses), parent, name, now) is Some,
    ensures
        ({
            let t = lookup_spec(s, Some(ses), parent, name, now)->Some_0.0;
            &&& t.nodes.dom() == s.nodes.dom()
            &&& t.cur_inode == s.cur_inode
            &&& t.cur_fh == s.cur_fh
            &&& t.names == s.names
            &&& t.w2r == s.w2r
            &&& t.sessions == s.sessions
            &&& forall|k: u64|
                #[trigger] t.nodes.contains_key(k) ==> t.nodes[k] == s.nodes[k] || t.nodes[k]
                    == (crate::node::InodeView {
                    attr: s.nodes[k].attr,
                    node: s.nodes[k].node.with_writable_parent(ses, parent),
                })
            &&& parent == 1 ==> t == s
        }),
{
    let t = lookup_spec(s, Some(ses), parent, name, now)->Some_0.0;
    assert(t.nodes.dom() =~= s.nodes.dom());
}

} // verus!
