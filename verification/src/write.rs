//! Writing into a file. A write to a read-only file first copies it up into
//! the writing session's writable layer.

use crate::attr::{fresh_attr, make_attribute};
use crate::node::{copy_bytes, writable_file_view, InodeContent, InodeView, Node};
use crate::state::{FsView, UnionFs};
use std::collections::HashMap;
use std::time::SystemTime;
use vstd::prelude::*;

verus! {

broadcast use vstd::std_specs::hash::group_hash_axioms;

/// The answer to a write.
pub enum WriteReply {
    /// The number of bytes reported as written.
    Written(u32),
    /// The request is left unanswered.
    NoReply,
}

/// `bytes` with `data` inserted at position `at`; unchanged where `data` is
/// empty.
pub open spec fn spliced(bytes: Seq<u8>, at: int, data: Seq<u8>) -> Seq<u8> {
    if data.len() == 0 {
        bytes
    } else {
        bytes.take(at) + data + bytes.skip(at)
    }
}

/// `data` can be inserted at `at` into `bytes`.
pub open spec fn splice_fits(bytes: Seq<u8>, at: int, data: Seq<u8>) -> bool {
    data.len() == 0 || (0 <= at <= bytes.len())
}

/// The copy-up of read-only file `ino` for session `ses` at time `now`,
/// before the data goes in: the next inode becomes a writable file with the
/// same bytes and name; where the session is known, it is entered under that
/// name in the writable directory recorded for the session, and the file's
/// bytes are appended to the copy once more. `None` where the request cannot be served.
pub open spec fn copy_up(s: FsView, ses: Option<i32>, ino: u64, now: SystemTime) -> Option<FsView> {
    if s.cur_inode == u64::MAX {
        None
    } else {
        let s1 = s.bumped();
        let c = s1.cur_inode;
        if !s1.is_file_at(ino) || !s1.names.contains_key(ino) {
            None
        } else {
            let s2 = s1.with_node(
                c,
                InodeView {
                    attr: fresh_attr(c, false, now),
                    node: writable_file_view(s1.nodes[ino].node.content()),
                },
            );
            let s3 = s2.with_name(c, s2.names[ino]);
            match ses {
                None => Some(s3),
                Some(x) => {
                    let m = s3.nodes[ino].node;
                    if m.is_dir() || !m.writable_parent().contains_key(x) {
                        None
                    } else {
                        let wp = m.writable_parent()[x];
                        if !s3.is_dir_at(wp) {
                            None
                        } else {
                            let s4 = s3.with_child(wp, s3.names[ino], c);
                            Some(
                                s4.with_content(
                                    c,
                                    s4.nodes[c].node.content() + s4.nodes[ino].node.content(),
                                ),
                            )
                        }
                    }
                },
            }
        }
    }
}

/// The state and answer after session `ses` writes `data` at `offset` into
/// inode `ino` at time `now`. A file of the writable layer gets the data
/// inserted at `offset`, and the answer counts the bytes modulo 2^32. A
/// read-only file is copied up first, and the data goes into the copy one
/// position past `offset`. Anything else is left unanswered. `None` where the
/// request cannot be served.
pub open spec fn write_spec(s: FsView, ses: Option<i32>, ino: u64, offset: u64, data: Seq<u8>, now: SystemTime) -> Option<
    (FsView, WriteReply),
> {
    let off = (offset as usize) as int;
    if !s.nodes.contains_key(ino) {
        None
    } else {
        let n = s.nodes[ino].node;
        if n.readable() && !n.writable() {
            match copy_up(s, ses, ino, now) {
                None => None,
                Some(s4) => {
                    let c = s4.cur_inode;
                    let bytes = s4.nodes[c].node.content();
                    if !splice_fits(bytes, off + 1, data) || data.len() > u32::MAX {
                        None
                    } else {
                        Some(
                            (
                                s4.with_content(c, spliced(bytes, off + 1, data)),
                                WriteReply::Written(data.len() as u32),
                            ),
                        )
                    }
                },
            }
        } else if n.writable() {
            if n.is_dir() || !splice_fits(n.content(), off, data) {
                None
            } else {
                Some(
                    (
                        s.with_content(ino, spliced(n.content(), off, data)),
                        WriteReply::Written(data.len() as u32),
                    ),
                )
            }
        } else {
            Some((s, WriteReply::NoReply))
        }
    }
}

/// Inserts `data` into `bytes` one byte at a time, the first at `at`.
fn insert_bytes(bytes: &mut Vec<u8>, at: usize, data: &[u8])
    requires
        splice_fits(old(bytes)@, at as int, data@),
    ensures
        final(bytes)@ == spliced(old(bytes)@, at as int, data@),
{
    let ghost l = bytes@;
    let mut counter: usize = at;
    let mut i: usize = 0;
    while i < data.len()
        invariant
            i <= data.len(),
            data@.len() > 0 ==> at <= l.len(),
            counter == at + i,
            data@.len() > 0 ==> bytes@ == l.take(at as int) + data@.take(i as int) + l.skip(at as int),
            data@.len() == 0 ==> bytes@ == l,
        decreases data.len() - i,
    {
        let ghost before = bytes@;
        assert(before.len() == l.len() + i);
        bytes.insert(counter, data[i]);
        assert(bytes@ =~= l.take(at as int) + data@.take(i + 1) + l.skip(at as int));
        let _ = bytes.len();
        counter = counter + 1;
        i = i + 1;
    }
    assert(data@.take(i as int) =~= data@);
}

impl UnionFs {
    /// Copies read-only file `ino` up for session `ses`, as `copy_up` says;
    /// the copy's inode.
    fn copy_up_file(&mut self, ses: Option<i32>, ino: u64, now: SystemTime) -> (res: u64)
        requires
            copy_up(old(self)@, ses, ino, now) is Some,
        ensures
            Some(final(self)@) == copy_up(old(self)@, ses, ino, now),
            res == final(self)@.cur_inode,
            res == old(self)@.cur_inode + 1,
    {
        let cur = self.alloc_inode();
        let readable = copy_bytes(self.node_ref(ino).unwrap().node_kind.get_file_content().unwrap());
        let content = InodeContent {
            inode_attributes: make_attribute(cur, false, now),
            node_kind: Node::File {
                file_content: readable,
                is_this_in_readable_path: false,
                is_this_in_writable_path: true,
                writable_parent_instance: HashMap::new(),
            },
        };
        assert(content@.node =~= writable_file_view(self@.nodes[ino].node.content()));
        self.put_node(cur, content);
        let name = self.name_of(ino).unwrap();
        self.put_name(cur, name);
        if let Some(x) = ses {
            let wp = self.node_ref(ino).unwrap().node_kind.get_writable_parent_instance_for_files(
                x,
            ).unwrap();
            let name2 = self.name_of(ino).unwrap();
            self.set_dir_child(wp, name2, cur);
            let mut copied = copy_bytes(self.node_ref(cur).unwrap().node_kind.get_file_content().unwrap());
            let again = self.node_ref(ino).unwrap().node_kind.get_file_content().unwrap();
            let mut k: usize = 0;
            let ghost base = copied@;
            while k < again.len()
                invariant
                    k <= again.len(),
                    copied@ == base + again@.take(k as int),
                decreases again.len() - k,
            {
                copied.push(again[k]);
                assert(copied@ =~= base + again@.take(k + 1));
                k = k + 1;
            }
            assert(again@.take(k as int) =~= again@);
            self.set_content(cur, copied);
        }
        cur
    }

    /// Writes `data` at `offset` into inode `ino` for session `ses` (`None`
    /// where the requesting process's session could not be read), at time
    /// `now`.
    pub fn write(&mut self, ses: Option<i32>, ino: u64, offset: u64, data: &[u8], now: SystemTime) -> (res:
        WriteReply)
        requires
            write_spec(old(self)@, ses, ino, offset, data@, now) is Some,
        ensures
            write_spec(old(self)@, ses, ino, offset, data@, now) == Some((final(self)@, res)),
    {
        let (present_in_writable_path, present_in_readable_path) = {
            let node = &self.node_ref(ino).unwrap().node_kind;
            (
                node.is_it_present_in_writable_path().unwrap(),
                node.is_it_present_in_readable_path().unwrap(),
            )
        };
        let off = #[verifier::truncate] (offset as usize);
        if present_in_readable_path && !present_in_writable_path {
            let cur = self.copy_up_file(ses, ino, now);
            let mut bytes = copy_bytes(self.node_ref(cur).unwrap().node_kind.get_file_content().unwrap());
            let blen = bytes.len();
            if data.len() > 0 {
                assert(off + 1 <= blen);
                insert_bytes(&mut bytes, off + 1, data);
            } else {
                insert_bytes(&mut bytes, off, data);
            }
            self.set_content(cur, bytes);
            WriteReply::Written(data.len() as u32)
        } else if present_in_writable_path {
            let mut bytes = copy_bytes(self.node_ref(ino).unwrap().node_kind.get_file_content().unwrap());
            insert_bytes(&mut bytes, off, data);
            self.set_content(ino, bytes);
            WriteReply::Written(#[verifier::truncate] (data.len() as u32))
        } else {
            WriteReply::NoReply
        }
    }
}

} // verus!
