//! Directory entries that name numbers the counter has handed out, with no
//! name twice in a directory, attributes that agree with what each inode
//! holds, and the state changes that keep them so.

use crate::node::{distinct_names, lemma_set_child_bound, lemma_set_child_distinct, InodeView};
use crate::state::FsView;
use vstd::prelude::*;

verus! {

/// Every entry of every directory names a number the counter has handed
/// out (or 0).
pub open spec fn children_handed_out(s: FsView) -> bool {
    forall|k: u64, i: int|
        s.is_dir_at(k) && 0 <= i < s.children_at(k).len() ==> #[trigger] s.children_at(k)[i].1
            <= s.cur_inode
}

/// Entering a handed-out number in a directory keeps every entry handed
/// out.
pub broadcast proof fn lemma_handed_with_child(s: FsView, d: u64, name: Seq<char>, v: u64)
    requires
        children_handed_out(s),
        s.is_dir_at(d),
        v <= s.cur_inode,
    ensures
        #[trigger] children_handed_out(s.with_child(d, name, v)),
{
    let t = s.with_child(d, name, v);
    assert forall|i: int| 0 <= i < s.children_at(d).len() implies #[trigger] s.children_at(d)[i].1
        <= s.cur_inode by {}
    lemma_set_child_bound(s.children_at(d), name, v, s.cur_inode as int);
    assert forall|k: u64, i: int|
        t.is_dir_at(k) && 0 <= i < t.children_at(k).len() implies #[trigger] t.children_at(k)[i].1
        <= t.cur_inode by {
        if k != d {
            assert(s.children_at(k)[i] == t.children_at(k)[i]);
        }
    }
}

/// Adding an inode whose entries, if any, are handed out keeps every entry
/// handed out.
pub broadcast proof fn lemma_handed_with_node(s: FsView, c: u64, n: InodeView)
    requires
        children_handed_out(s),
        forall|i: int| 0 <= i < n.node.children().len() ==> #[trigger] n.node.children()[i].1 <= s.cur_inode,
    ensures
        #[trigger] children_handed_out(s.with_node(c, n)),
{
    let t = s.with_node(c, n);
    assert forall|k: u64, i: int|
        t.is_dir_at(k) && 0 <= i < t.children_at(k).len() implies #[trigger] t.children_at(k)[i].1
        <= t.cur_inode by {
        if k != c {
            assert(s.children_at(k)[i] == t.children_at(k)[i]);
        }
    }
}

/// Changing an inode's writable parents keeps every entry handed out.
pub broadcast proof fn lemma_handed_parent(s: FsView, k: u64, ses: i32, p: u64)
    requires
        children_handed_out(s),
        s.nodes.contains_key(k),
    ensures
        #[trigger] children_handed_out(s.with_writable_parent(k, ses, p)),
{
    let t = s.with_writable_parent(k, ses, p);
    assert forall|j: u64, i: int|
        t.is_dir_at(j) && 0 <= i < t.children_at(j).len() implies #[trigger] t.children_at(j)[i].1
        <= t.cur_inode by {
        assert(s.children_at(j)[i] == t.children_at(j)[i]);
    }
}

/// Changing a file's bytes keeps every entry handed out.
pub broadcast proof fn lemma_handed_content(s: FsView, k: u64, b: Seq<u8>)
    requires
        children_handed_out(s),
        s.nodes.contains_key(k),
    ensures
        #[trigger] children_handed_out(s.with_content(k, b)),
{
    let t = s.with_content(k, b);
    assert forall|j: u64, i: int|
        t.is_dir_at(j) && 0 <= i < t.children_at(j).len() implies #[trigger] t.children_at(j)[i].1
        <= t.cur_inode by {
        assert(s.children_at(j)[i] == t.children_at(j)[i]);
    }
}

/// Dropping an inode keeps every entry handed out.
pub broadcast proof fn lemma_handed_drop(s: FsView, k: u64)
    requires
        children_handed_out(s),
    ensures
        #[trigger] children_handed_out(s.without_node(k)),
{
    let t = s.without_node(k);
    assert forall|j: u64, i: int|
        t.is_dir_at(j) && 0 <= i < t.children_at(j).len() implies #[trigger] t.children_at(j)[i].1
        <= t.cur_inode by {
        assert(s.children_at(j)[i] == t.children_at(j)[i]);
    }
}

/// Two states with the same inodes, the second with a counter no lower:
/// entries handed out in the first are handed out in the second.
pub proof fn lemma_handed_same_nodes(s: FsView, t: FsView)
    requires
        children_handed_out(s),
        t.nodes == s.nodes,
        t.cur_inode >= s.cur_inode,
    ensures
        children_handed_out(t),
{
    assert forall|j: u64, i: int|
        t.is_dir_at(j) && 0 <= i < t.children_at(j).len() implies #[trigger] t.children_at(j)[i].1
        <= t.cur_inode by {
        assert(s.children_at(j)[i] == t.children_at(j)[i]);
    }
}

/// Moving the counter on keeps every entry handed out.
pub broadcast proof fn lemma_handed_bumped(s: FsView)
    requires
        children_handed_out(s),
        s.cur_inode < u64::MAX,
    ensures
        #[trigger] children_handed_out(s.bumped()),
{
    lemma_handed_same_nodes(s, s.bumped());
}

/// Naming an inode keeps every entry handed out.
pub broadcast proof fn lemma_handed_name(s: FsView, k: u64, n: Seq<char>)
    requires
        children_handed_out(s),
    ensures
        #[trigger] children_handed_out(s.with_name(k, n)),
{
    lemma_handed_same_nodes(s, s.with_name(k, n));
}

/// Forgetting a name keeps every entry handed out.
pub broadcast proof fn lemma_handed_unname(s: FsView, k: u64)
    requires
        children_handed_out(s),
    ensures
        #[trigger] children_handed_out(s.without_name(k)),
{
    lemma_handed_same_nodes(s, s.without_name(k));
}

/// Recording a shadow keeps every entry handed out.
pub broadcast proof fn lemma_handed_shadow(s: FsView, k: u64, r: Option<u64>)
    requires
        children_handed_out(s),
    ensures
        #[trigger] children_handed_out(s.with_shadow(k, r)),
{
    lemma_handed_same_nodes(s, s.with_shadow(k, r));
}

/// Recording a session keeps every entry handed out.
pub broadcast proof fn lemma_handed_session(s: FsView, x: i32, root: u64)
    requires
        children_handed_out(s),
    ensures
        #[trigger] children_handed_out(s.with_session(x, root)),
{
    lemma_handed_same_nodes(s, s.with_session(x, root));
}

/// No directory holds a name twice.
pub open spec fn names_distinct(s: FsView) -> bool {
    forall|k: u64| s.is_dir_at(k) ==> distinct_names(#[trigger] s.children_at(k))
}

/// Every inode's attributes give the kind of what it holds: a directory's
/// say directory, a file's say regular file.
pub open spec fn attrs_agree(s: FsView) -> bool {
    forall|k: u64| s.nodes.contains_key(k) ==> (#[trigger] s.nodes[k]).attr.kind == s.nodes[k].node.kind()
}

/// The directories' entries are sound: each names a handed-out number, and
/// no directory holds a name twice; and every inode's attributes agree with
/// what it holds.
pub open spec fn entries_ok(s: FsView) -> bool {
    children_handed_out(s) && names_distinct(s) && attrs_agree(s)
}

/// Changing a node in place, keeping its kind, keeps the attributes in
/// agreement.
pub proof fn lemma_attrs_same_kind(s: FsView, t: FsView, k: u64)
    requires
        attrs_agree(s),
        s.nodes.contains_key(k),
        t.nodes == s.nodes.insert(k, t.nodes[k]),
        t.nodes[k].attr == s.nodes[k].attr,
        t.nodes[k].node.kind() == s.nodes[k].node.kind(),
    ensures
        attrs_agree(t),
{
    assert forall|j: u64| t.nodes.contains_key(j) implies (#[trigger] t.nodes[j]).attr.kind
        == t.nodes[j].node.kind() by {
        if j != k {
            assert(t.nodes[j] == s.nodes[j]);
        }
    }
}

/// Entering a name in a directory keeps the attributes in agreement.
pub broadcast proof fn lemma_attrs_with_child(s: FsView, d: u64, name: Seq<char>, v: u64)
    requires
        attrs_agree(s),
        s.is_dir_at(d),
    ensures
        #[trigger] attrs_agree(s.with_child(d, name, v)),
{
    lemma_attrs_same_kind(s, s.with_child(d, name, v), d);
}

/// Adding an inode whose attributes give its kind keeps the attributes in
/// agreement.
pub broadcast proof fn lemma_attrs_with_node(s: FsView, c: u64, n: InodeView)
    requires
        attrs_agree(s),
        n.attr.kind == n.node.kind(),
    ensures
        #[trigger] attrs_agree(s.with_node(c, n)),
{
    let t = s.with_node(c, n);
    assert forall|j: u64| t.nodes.contains_key(j) implies (#[trigger] t.nodes[j]).attr.kind
        == t.nodes[j].node.kind() by {
        if j != c {
            assert(t.nodes[j] == s.nodes[j]);
        }
    }
}

/// Changing an inode's writable parents keeps the attributes in agreement.
pub broadcast proof fn lemma_attrs_parent(s: FsView, k: u64, ses: i32, p: u64)
    requires
        attrs_agree(s),
        s.nodes.contains_key(k),
    ensures
        #[trigger] attrs_agree(s.with_writable_parent(k, ses, p)),
{
    lemma_attrs_same_kind(s, s.with_writable_parent(k, ses, p), k);
}

/// Changing a file's bytes keeps the attributes in agreement.
pub broadcast proof fn lemma_attrs_content(s: FsView, k: u64, b: Seq<u8>)
    requires
        attrs_agree(s),
        s.nodes.contains_key(k),
    ensures
        #[trigger] attrs_agree(s.with_content(k, b)),
{
    lemma_attrs_same_kind(s, s.with_content(k, b), k);
}

/// Dropping an inode keeps the attributes in agreement.
pub broadcast proof fn lemma_attrs_drop(s: FsView, k: u64)
    requires
        attrs_agree(s),
    ensures
        #[trigger] attrs_agree(s.without_node(k)),
{
    let t = s.without_node(k);
    assert forall|j: u64| t.nodes.contains_key(j) implies (#[trigger] t.nodes[j]).attr.kind
        == t.nodes[j].node.kind() by {
        assert(t.nodes[j] == s.nodes[j]);
    }
}

/// Moving the counter on keeps the attributes in agreement.
pub broadcast proof fn lemma_attrs_bumped(s: FsView)
    requires
        attrs_agree(s),
    ensures
        #[trigger] attrs_agree(s.bumped()),
{
}

/// Naming an inode keeps the attributes in agreement.
pub broadcast proof fn lemma_attrs_name(s: FsView, k: u64, n: Seq<char>)
    requires
        attrs_agree(s),
    ensures
        #[trigger] attrs_agree(s.with_name(k, n)),
{
}

/// Forgetting a name keeps the attributes in agreement.
pub broadcast proof fn lemma_attrs_unname(s: FsView, k: u64)
    requires
        attrs_agree(s),
    ensures
        #[trigger] attrs_agree(s.without_name(k)),
{
}

/// Recording a shadow keeps the attributes in agreement.
pub broadcast proof fn lemma_attrs_shadow(s: FsView, k: u64, r: Option<u64>)
    requires
        attrs_agree(s),
    ensures
        #[trigger] attrs_agree(s.with_shadow(k, r)),
{
}

/// Recording a session keeps the attributes in agreement.
pub broadcast proof fn lemma_attrs_session(s: FsView, x: i32, root: u64)
    requires
        attrs_agree(s),
    ensures
        #[trigger] attrs_agree(s.with_session(x, root)),
{
}

/// Entering a name in a directory keeps the names of every directory
/// distinct.
pub broadcast proof fn lemma_distinct_with_child(s: FsView, d: u64, name: Seq<char>, v: u64)
    requires
        names_distinct(s),
        s.is_dir_at(d),
    ensures
        #[trigger] names_distinct(s.with_child(d, name, v)),
{
    let t = s.with_child(d, name, v);
    lemma_set_child_distinct(s.children_at(d), name, v);
    assert forall|k: u64| t.is_dir_at(k) implies distinct_names(#[trigger] t.children_at(k)) by {
        if k != d {
            assert(t.children_at(k) == s.children_at(k));
        }
    }
}

/// Adding an inode whose entries, if any, have distinct names keeps the
/// names of every directory distinct.
pub broadcast proof fn lemma_distinct_with_node(s: FsView, c: u64, n: InodeView)
    requires
        names_distinct(s),
        distinct_names(n.node.children()),
    ensures
        #[trigger] names_distinct(s.with_node(c, n)),
{
    let t = s.with_node(c, n);
    assert forall|k: u64| t.is_dir_at(k) implies distinct_names(#[trigger] t.children_at(k)) by {
        if k != c {
            assert(t.children_at(k) == s.children_at(k));
        }
    }
}

/// Changing an inode's writable parents keeps the names distinct.
pub broadcast proof fn lemma_distinct_parent(s: FsView, k: u64, ses: i32, p: u64)
    requires
        names_distinct(s),
        s.nodes.contains_key(k),
    ensures
        #[trigger] names_distinct(s.with_writable_parent(k, ses, p)),
{
    let t = s.with_writable_parent(k, ses, p);
    assert forall|j: u64| t.is_dir_at(j) implies distinct_names(#[trigger] t.children_at(j)) by {
        assert(t.children_at(j) == s.children_at(j));
    }
}

/// Changing a file's bytes keeps the names distinct.
pub broadcast proof fn lemma_distinct_content(s: FsView, k: u64, b: Seq<u8>)
    requires
        names_distinct(s),
        s.nodes.contains_key(k),
    ensures
        #[trigger] names_distinct(s.with_content(k, b)),
{
    let t = s.with_content(k, b);
    assert forall|j: u64| t.is_dir_at(j) implies distinct_names(#[trigger] t.children_at(j)) by {
        assert(t.children_at(j) == s.children_at(j));
    }
}

/// Dropping an inode keeps the names distinct.
pub broadcast proof fn lemma_distinct_drop(s: FsView, k: u64)
    requires
        names_distinct(s),
    ensures
        #[trigger] names_distinct(s.without_node(k)),
{
    let t = s.without_node(k);
    assert forall|j: u64| t.is_dir_at(j) implies distinct_names(#[trigger] t.children_at(j)) by {
        assert(t.children_at(j) == s.children_at(j));
    }
}

/// Two states with the same inodes have the same directories.
pub proof fn lemma_distinct_same_nodes(s: FsView, t: FsView)
    requires
        names_distinct(s),
        t.nodes == s.nodes,
    ensures
        names_distinct(t),
{
    assert forall|j: u64| t.is_dir_at(j) implies distinct_names(#[trigger] t.children_at(j)) by {
        assert(t.children_at(j) == s.children_at(j));
    }
}

/// Moving the counter on keeps the names distinct.
pub broadcast proof fn lemma_distinct_bumped(s: FsView)
    requires
        names_distinct(s),
    ensures
        #[trigger] names_distinct(s.bumped()),
{
    lemma_distinct_same_nodes(s, s.bumped());
}

/// Naming an inode keeps the names distinct.
pub broadcast proof fn lemma_distinct_name(s: FsView, k: u64, n: Seq<char>)
    requires
        names_distinct(s),
    ensures
        #[trigger] names_distinct(s.with_name(k, n)),
{
    lemma_distinct_same_nodes(s, s.with_name(k, n));
}

/// Forgetting a name keeps the names distinct.
pub broadcast proof fn lemma_distinct_unname(s: FsView, k: u64)
    requires
        names_distinct(s),
    ensures
        #[trigger] names_distinct(s.without_name(k)),
{
    lemma_distinct_same_nodes(s, s.without_name(k));
}

/// Recording a shadow keeps the names distinct.
pub broadcast proof fn lemma_distinct_shadow(s: FsView, k: u64, r: Option<u64>)
    requires
        names_distinct(s),
    ensures
        #[trigger] names_distinct(s.with_shadow(k, r)),
{
    lemma_distinct_same_nodes(s, s.with_shadow(k, r));
}

/// Recording a session keeps the names distinct.
pub broadcast proof fn lemma_distinct_session(s: FsView, x: i32, root: u64)
    requires
        names_distinct(s),
    ensures
        #[trigger] names_distinct(s.with_session(x, root)),
{
    lemma_distinct_same_nodes(s, s.with_session(x, root));
}

pub broadcast group group_handed_out {
    lemma_attrs_with_child,
    lemma_attrs_with_node,
    lemma_attrs_parent,
    lemma_attrs_content,
    lemma_attrs_drop,
    lemma_attrs_bumped,
    lemma_attrs_name,
    lemma_attrs_unname,
    lemma_attrs_shadow,
    lemma_attrs_session,
    lemma_distinct_with_child,
    lemma_distinct_with_node,
    lemma_distinct_parent,
    lemma_distinct_content,
    lemma_distinct_drop,
    lemma_distinct_bumped,
    lemma_distinct_name,
    lemma_distinct_unname,
    lemma_distinct_shadow,
    lemma_distinct_session,
    lemma_handed_with_child,
    lemma_handed_with_node,
    lemma_handed_parent,
    lemma_handed_content,
    lemma_handed_drop,
    lemma_handed_bumped,
    lemma_handed_name,
    lemma_handed_unname,
    lemma_handed_shadow,
    lemma_handed_session,
}

} // verus!
