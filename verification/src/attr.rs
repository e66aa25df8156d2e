//! File attributes and the kind of an inode.

use std::time::SystemTime;
use vstd::prelude::*;

verus! {

/// `std::time::SystemTime`, which vstd leaves undeclared; attributes carry one
/// as an opaque value.
#[verifier::external_type_specification]
#[verifier::external_body]
pub struct ExSystemTime(SystemTime);

/// What an inode holds.
#[derive(Clone, Copy, Debug, PartialEq, Eq, Structural)]
pub enum FileKind {
    Directory,
    RegularFile,
}

/// The attributes stored with an inode and handed back to the kernel.
/// All four timestamps of the kernel's attribute record are `time`.
#[derive(Clone, Copy, Debug)]
pub struct Attr {
    pub ino: u64,
    pub size: u64,
    pub blocks: u64,
    pub time: SystemTime,
    pub kind: FileKind,
    pub perm: u16,
    pub nlink: u32,
    pub uid: u32,
    pub gid: u32,
    pub rdev: u32,
    pub blksize: u32,
    pub flags: u32,
}

/// The kind that `dir` selects.
pub open spec fn kind_for(dir: bool) -> FileKind {
    if dir {
        FileKind::Directory
    } else {
        FileKind::RegularFile
    }
}

/// The attributes of a freshly made inode: empty, mode 0o755, owned by root,
/// block size 512, stamped with `now`.
pub open spec fn fresh_attr(inode_val: u64, dir: bool, now: SystemTime) -> Attr {
    Attr {
        ino: inode_val,
        size: 0,
        blocks: 0,
        time: now,
        kind: kind_for(dir),
        perm: 0o755,
        nlink: 0,
        uid: 0,
        gid: 0,
        rdev: 0,
        blksize: 512,
        flags: 0,
    }
}

/// Builds the attributes of a new directory (`dir`) or regular file, stamped
/// with the clock reading `now`.
pub fn make_attribute(inode_val: u64, dir: bool, now: SystemTime) -> (res: Attr)
    ensures
        res == fresh_attr(inode_val, dir, now),
{
    if dir {
        Attr {
            ino: inode_val,
            size: 0,
            blocks: 0,
            time: now,
            kind: FileKind::Directory,
            perm: 0o755,
            nlink: 0,
            uid: 0,
            gid: 0,
            rdev: 0,
            blksize: 512,
            flags: 0,
        }
    } else {
        Attr {
            ino: inode_val,
            size: 0,
            blocks: 0,
            time: now,
            kind: FileKind::RegularFile,
            perm: 0o755,
            nlink: 0,
            uid: 0,
            gid: 0,
            rdev: 0,
            blksize: 512,
            flags: 0,
        }
    }
}

} // verus!
