//! Listing a directory as one session sees it: the writable entries, the
//! read-only entries they do not shadow, then "." and "..".

use crate::attr::FileKind;
use crate::node::{contains_link, copy_links, has_name, links_view};
use crate::state::{FsView, UnionFs};
use vstd::prelude::*;

verus! {

broadcast use vstd::std_specs::hash::group_hash_axioms;

/// One line of a listing: the inode, the position to resume after it, its
/// kind and its name.
pub struct DirEntry {
    pub ino: u64,
    pub offset: u64,
    pub kind: FileKind,
    pub name: String,
}

/// A listing line as the specifications see it.
pub open spec fn entry_view(e: DirEntry) -> (u64, u64, FileKind, Seq<char>) {
    (e.ino, e.offset, e.kind, e.name@)
}

/// The live entries of a writable directory, in order: those that do not
/// mark a deletion.
pub open spec fn writable_listing(s: FsView, kids: Seq<(Seq<char>, u64)>) -> Seq<(u64, FileKind, Seq<char>)>
    decreases kids.len(),
{
    if kids.len() == 0 {
        Seq::empty()
    } else {
        let prev = writable_listing(s, kids.drop_last());
        let (n, v) = kids.last();
        if v == 0 {
            prev
        } else {
            prev.push((v, s.nodes[v].node.kind(), n))
        }
    }
}

/// The entries of a read-only directory that show through: those whose name
/// the writable directory `over` lacks and whose inode exists.
pub open spec fn readable_listing(
    s: FsView,
    kids: Seq<(Seq<char>, u64)>,
    over: Seq<(Seq<char>, u64)>,
) -> Seq<(u64, FileKind, Seq<char>)>
    decreases kids.len(),
{
    if kids.len() == 0 {
        Seq::empty()
    } else {
        let prev = readable_listing(s, kids.drop_last(), over);
        let (n, v) = kids.last();
        if has_name(over, n) || !s.nodes.contains_key(v) {
            prev
        } else {
            prev.push((v, s.nodes[v].node.kind(), n))
        }
    }
}

/// The directory listed when session `ses` asks for `ino`: the session's
/// writable root in place of the read-only root.
pub open spec fn listed_dir(s: FsView, ses: Option<i32>, ino: u64) -> u64 {
    if ino == 1 && ses is Some && s.sessions.contains_key(ses->0) {
        s.sessions[ses->0]
    } else {
        ino
    }
}

/// The read-only directory that `w` shadows, if any.
pub open spec fn shadow_of(s: FsView, w: u64) -> Option<u64> {
    if s.w2r.contains_key(w) {
        s.w2r[w]
    } else {
        None
    }
}

/// The listing can be made: the listed directory is a directory, each of
/// its live entries exists, and what it shadows is a directory.
pub open spec fn readdir_ok(s: FsView, ses: Option<i32>, ino: u64) -> bool {
    let w = listed_dir(s, ses, ino);
    &&& s.is_dir_at(w)
    &&& forall|i: int|
        0 <= i < s.children_at(w).len() && (#[trigger] s.children_at(w)[i]).1 != 0
            ==> s.nodes.contains_key(s.children_at(w)[i].1)
    &&& shadow_of(s, w) is Some ==> s.is_dir_at(shadow_of(s, w)->0)
}

/// The whole listing of `ino` for session `ses`.
pub open spec fn full_listing(s: FsView, ses: Option<i32>, ino: u64) -> Seq<(u64, FileKind, Seq<char>)> {
    let w = listed_dir(s, ses, ino);
    let wk = s.children_at(w);
    let shown = match shadow_of(s, w) {
        Some(r) => readable_listing(s, s.children_at(r), wk),
        None => Seq::empty(),
    };
    writable_listing(s, wk) + shown + seq![
        (w, FileKind::Directory, seq!['.']),
        (w, FileKind::Directory, seq!['.', '.']),
    ]
}

/// The lines of `listing` from position `from` on, each with the position
/// that follows it.
pub open spec fn numbered_from(listing: Seq<(u64, FileKind, Seq<char>)>, from: int) -> Seq<
    (u64, u64, FileKind, Seq<char>),
> {
    let n = if from < listing.len() {
        listing.len() - from
    } else {
        0
    };
    Seq::new(
        n as nat,
        |k: int| (listing[from + k].0, (from + k + 1) as u64, listing[from + k].1, listing[from + k].2),
    )
}

impl UnionFs {
    /// The listing of directory `ino` for session `ses`, from position `offset`
    /// on.
    pub fn readdir(&self, ses: Option<i32>, ino: u64, offset: u64) -> (res: Vec<DirEntry>)
        requires
            readdir_ok(self@, ses, ino),
        ensures
            res@.map_values(|e: DirEntry| entry_view(e)) == numbered_from(
                full_listing(self@, ses, ino),
                (#[verifier::truncate] (offset as usize)) as int,
            ),
    {
        let ghost s = self@;
        let mut writable_dir_inode = ino;
        if ino == 1 {
            if let Some(x) = ses {
                if let Some(val) = self.session_id_mapping.get(&x) {
                    writable_dir_inode = *val;
                }
            }
        }
        let w = writable_dir_inode;
        assert(w == listed_dir(s, ses, ino));
        let wkids = copy_links(self.node_ref(w).unwrap().node_kind.children_of_directory().unwrap());
        let ghost wk = links_view(wkids@);
        assert forall|k: int| 0 <= k < wk.len() && (#[trigger] wk[k]).1 != 0 implies s.nodes.contains_key(
            wk[k].1,
        ) by {
            assert(s.children_at(w)[k] == wk[k]);
        }
        let mut aggregate: Vec<(u64, FileKind, String)> = Vec::new();
        let mut i: usize = 0;
        while i < wkids.len()
            invariant
                i <= wkids.len(),
                s == self@,
                wk == links_view(wkids@),
                wk == s.children_at(w),
                forall|k: int|
                    0 <= k < wk.len() && (#[trigger] wk[k]).1 != 0 ==> s.nodes.contains_key(wk[k].1),
                aggregate@.map_values(|e: (u64, FileKind, String)| (e.0, e.1, e.2@)) == writable_listing(
                    s,
                    wk.take(i as int),
                ),
            decreases wkids.len() - i,
        {
            let ghost before = aggregate@;
            let v = wkids[i].inode;
            assert(wk.take(i + 1).drop_last() =~= wk.take(i as int));
            assert(wk.take(i + 1).last() == wk[i as int]);
            if v != 0 {
                assert(wk[i as int].1 != 0);
                let kind = self.node_ref(v).unwrap().get_inode_kind();
                let name = wkids[i].name.clone();
                aggregate.push((v, kind, name));
                assert(aggregate@.map_values(|e: (u64, FileKind, String)| (e.0, e.1, e.2@)) =~= before.map_values(
                    |e: (u64, FileKind, String)| (e.0, e.1, e.2@),
                ).push((v, kind, wk[i as int].0)));
            }
            i = i + 1;
        }
        assert(wk.take(i as int) =~= wk);
        let ghost after_writable = aggregate@.map_values(|e: (u64, FileKind, String)| (e.0, e.1, e.2@));
        let shadow = match self.writable_to_readable_inode.get(&w) {
            Some(r) => *r,
            None => None,
        };
        assert(shadow == crate::readdir::shadow_of(s, w));
        let ghost shown: Seq<(u64, FileKind, Seq<char>)> = Seq::empty();
        if let Some(r) = shadow {
            let rkids = copy_links(self.node_ref(r).unwrap().node_kind.children_of_directory().unwrap());
            let ghost rk = links_view(rkids@);
            let mut j: usize = 0;
            while j < rkids.len()
                invariant
                    j <= rkids.len(),
                    s == self@,
                    rk == links_view(rkids@),
                    wk == links_view(wkids@),
                    aggregate@.map_values(|e: (u64, FileKind, String)| (e.0, e.1, e.2@)) == after_writable
                        + readable_listing(s, rk.take(j as int), wk),
                decreases rkids.len() - j,
            {
                let ghost before = aggregate@;
                let n = &rkids[j].name;
                let v = rkids[j].inode;
                assert(rk.take(j + 1).drop_last() =~= rk.take(j as int));
                assert(rk.take(j + 1).last() == rk[j as int]);
                let omitted = contains_link(&wkids, n);
                if !omitted {
                    match self.node_ref(v) {
                        Some(c) => {
                            let kind = c.get_inode_kind();
                            aggregate.push((v, kind, n.clone()));
                            assert(aggregate@.map_values(
                                |e: (u64, FileKind, String)| (e.0, e.1, e.2@),
                            ) =~= before.map_values(|e: (u64, FileKind, String)| (e.0, e.1, e.2@)).push(
                                (v, kind, rk[j as int].0),
                            ));
                        },
                        None => {},
                    }
                }
                j = j + 1;
            }
            assert(rk.take(j as int) =~= rk);
            proof {
                shown = readable_listing(s, rk, wk);
            }
        }
        let ghost before_dots = aggregate@;
        let dot = String::from_str(".");
        let dotdot = String::from_str("..");
        proof {
            reveal_strlit(".");
            reveal_strlit("..");
            assert(dot@ =~= seq!['.']);
            assert(dotdot@ =~= seq!['.', '.']);
        }
        aggregate.push((w, FileKind::Directory, dot));
        aggregate.push((w, FileKind::Directory, dotdot));
        let ghost full = full_listing(s, ses, ino);
        assert(aggregate@.map_values(|e: (u64, FileKind, String)| (e.0, e.1, e.2@)) =~= full);
        let start = #[verifier::truncate] (offset as usize);
        let mut res: Vec<DirEntry> = Vec::new();
        if start >= aggregate.len() {
            assert(numbered_from(full, start as int) =~= Seq::empty());
            return res;
        }
        let mut k: usize = start;
        while k < aggregate.len()
            invariant
                start <= k <= aggregate.len(),
                aggregate@.map_values(|e: (u64, FileKind, String)| (e.0, e.1, e.2@)) == full,
                res@.map_values(|e: DirEntry| entry_view(e)) == numbered_from(full, start as int).take(
                    (k - start) as int,
                ),
            decreases aggregate.len() - k,
        {
            let ghost before = res@;
            let e = &aggregate[k];
            assert(full[k as int] == (e.0, e.1, e.2@));
            let name = e.2.clone();
            let ghost newv = (e.0, (k + 1) as u64, e.1, e.2@);
            assert(numbered_from(full, start as int)[k - start] == newv);
            res.push(DirEntry { ino: e.0, offset: (k + 1) as u64, kind: e.1, name });
            assert(res@.map_values(|e: DirEntry| entry_view(e)) =~= before.map_values(
                |e: DirEntry| entry_view(e),
            ).push(newv));
            assert(res@.map_values(|e: DirEntry| entry_view(e)) =~= numbered_from(full, start as int).take(
                (k + 1 - start) as int,
            ));
            k = k + 1;
        }
        assert(numbered_from(full, start as int).take((k - start) as int) =~= numbered_from(
            full,
            start as int,
        ));
        res
    }
}

} // verus!
