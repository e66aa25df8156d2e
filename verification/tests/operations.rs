use std::path::PathBuf;
use std::time::{Duration, SystemTime};
use unionfs::attr::{make_attribute, FileKind};
use unionfs::create::CreateReply;
use unionfs::lookup::EntryReply;
use unionfs::path::strip;
use unionfs::readdir::DirEntry;
use unionfs::scan::{ScannedKind, ScannedTree};
use unionfs::state::{FsError, UnionFs};
use unionfs::write::WriteReply;

fn t0() -> SystemTime {
    SystemTime::UNIX_EPOCH
}

fn t1() -> SystemTime {
    SystemTime::UNIX_EPOCH + Duration::from_secs(100)
}

/// root (1): "a.txt" (2, "hello"), "docs" (3) holding "b.txt" (4, "bee").
fn sample() -> UnionFs {
    let mut fs = UnionFs::new(PathBuf::from("/srv/data"), t0());
    let a = fs.instantiate_entry(1, "a.txt".to_string(), ScannedKind::File(b"hello".to_vec()), t0());
    assert_eq!(a, 2);
    let docs = fs.instantiate_entry(1, "docs".to_string(), ScannedKind::Directory, t0());
    assert_eq!(docs, 3);
    let b = fs.instantiate_entry(docs, "b.txt".to_string(), ScannedKind::File(b"bee".to_vec()), t0());
    assert_eq!(b, 4);
    fs
}

/// The sample after session 5 has looked up "docs" in the root: its writable
/// root is inode 5 and "docs" has the writable twin 6.
fn with_session() -> UnionFs {
    let mut fs = sample();
    let r = fs.lookup(Some(5), 1, &"docs".to_string(), t1());
    match r {
        EntryReply::Entry { attr, generation } => {
            assert_eq!(attr.ino, 6);
            assert_eq!(generation, 0);
        }
        _ => panic!("docs not found"),
    }
    fs
}

fn entry_ino(r: &EntryReply) -> Option<u64> {
    match r {
        EntryReply::Entry { attr, .. } => Some(attr.ino),
        _ => None,
    }
}

fn names(entries: &[DirEntry]) -> Vec<(u64, u64, String)> {
    entries.iter().map(|e| (e.ino, e.offset, e.name.clone())).collect()
}

#[test]
fn new_fs_has_readonly_root() {
    let fs = UnionFs::new(PathBuf::from("/srv/data"), t0());
    let attr = fs.getattr(1).unwrap();
    assert_eq!(attr.ino, 1);
    assert_eq!(attr.kind, FileKind::Directory);
    assert_eq!(attr.perm, 0o755);
    assert_eq!(attr.blksize, 512);
    assert_eq!(attr.time, t0());
    assert!(fs.getattr(2).is_none());
    assert_eq!(fs.curr_inode_val, 1);
    assert_eq!(fs.curr_file_handle, 0);
}

#[test]
fn make_attribute_fields() {
    let d = make_attribute(9, true, t1());
    assert_eq!(d.ino, 9);
    assert_eq!(d.kind, FileKind::Directory);
    assert_eq!(d.size, 0);
    assert_eq!(d.nlink, 0);
    assert_eq!(d.time, t1());
    let f = make_attribute(10, false, t0());
    assert_eq!(f.kind, FileKind::RegularFile);
    assert_eq!(f.perm, 0o755);
}

#[test]
fn setattr_reports_fresh_file_attributes() {
    let fs = sample();
    let a = fs.setattr(3, t1());
    assert_eq!(a.ino, 3);
    assert_eq!(a.kind, FileKind::RegularFile);
    assert_eq!(a.time, t1());
}

#[test]
fn instantiate_builds_readonly_tree() {
    let fs = sample();
    assert_eq!(fs.getattr(2).unwrap().kind, FileKind::RegularFile);
    assert_eq!(fs.getattr(3).unwrap().kind, FileKind::Directory);
    assert_eq!(fs.read(2, 0), b"hello".to_vec());
    assert_eq!(fs.read(4, 1), b"ee".to_vec());
    assert_eq!(fs.check_readable_path(1, &"docs".to_string()), Some(3));
    assert_eq!(fs.check_readable_path(3, &"b.txt".to_string()), Some(4));
    assert_eq!(fs.check_readable_path(3, &"zzz".to_string()), None);
    assert_eq!(fs.check_readable_path(42, &"b.txt".to_string()), None);
}

#[test]
fn instantiate_other_gets_name_but_no_inode() {
    let mut fs = sample();
    let c = fs.instantiate_entry(1, "fifo".to_string(), ScannedKind::Other, t0());
    assert_eq!(c, 5);
    assert!(fs.getattr(5).is_none());
    assert_eq!(fs.check_readable_path(1, &"fifo".to_string()), Some(5));
}

#[test]
fn lookup_probe_names_not_found() {
    let mut fs = sample();
    for n in ["autorun.inf", ".Trash", ".Trash-1000", ".xdg-volume-info"] {
        let r = fs.lookup(Some(5), 1, &n.to_string(), t1());
        assert!(matches!(r, EntryReply::Error(FsError::NotFound)));
    }
    assert!(fs.session_id_mapping.is_empty());
}

#[test]
fn lookup_without_session_is_unanswered() {
    let mut fs = sample();
    let r = fs.lookup(None, 1, &"a.txt".to_string(), t1());
    assert!(matches!(r, EntryReply::NoReply));
    let r = fs.lookup(Some(0), 1, &"a.txt".to_string(), t1());
    assert!(matches!(r, EntryReply::NoReply));
    assert!(fs.session_id_mapping.is_empty());
    assert_eq!(fs.curr_inode_val, 4);
}

#[test]
fn lookup_starts_session_and_clones_directories() {
    let fs = with_session();
    assert_eq!(fs.session_id_mapping.get(&5), Some(&5));
    assert_eq!(fs.curr_inode_val, 6);
    assert_eq!(fs.check_writable_path(5, &"docs".to_string()), Some(6));
    assert_eq!(fs.check_writable_path(5, &"a.txt".to_string()), None);
    assert_eq!(fs.writable_to_readable_inode.get(&6), Some(&Some(3)));
    assert_eq!(fs.writable_to_readable_inode.get(&5), Some(&Some(1)));
    assert_eq!(fs.inode_to_string_mapping.get(&6).unwrap(), "docs");
    assert_eq!(fs.inode_to_string_mapping.get(&5).unwrap(), "/");
    let a = fs.inode_to_content_mapping.get(&2).unwrap();
    assert_eq!(a.node_kind.get_writable_parent_instance_for_files(5), Some(5));
    let b = fs.inode_to_content_mapping.get(&4).unwrap();
    assert_eq!(b.node_kind.get_writable_parent_instance_for_files(5), Some(6));
    let d = fs.inode_to_content_mapping.get(&3).unwrap();
    assert_eq!(d.node_kind.get_writable_parent_instance_for_dirs(5), Some(5));
}

#[test]
fn lookup_readonly_file_in_root() {
    let mut fs = with_session();
    let r = fs.lookup(Some(5), 1, &"a.txt".to_string(), t1());
    match r {
        EntryReply::Entry { attr, generation } => {
            assert_eq!(attr.ino, 2);
            assert_eq!(generation, 1);
        }
        _ => panic!("a.txt not found"),
    }
    let r = fs.lookup(Some(5), 1, &"missing".to_string(), t1());
    assert!(matches!(r, EntryReply::Error(FsError::NotFound)));
}

#[test]
fn lookup_in_cloned_directory_sees_readonly_entries() {
    let mut fs = with_session();
    let r = fs.lookup(Some(5), 6, &"b.txt".to_string(), t1());
    assert_eq!(entry_ino(&r), Some(4));
    let r = fs.lookup(Some(5), 6, &"nothing".to_string(), t1());
    assert!(matches!(r, EntryReply::Error(FsError::NotFound)));
}

#[test]
fn readdir_merges_layers() {
    let fs = with_session();
    let listing = fs.readdir(Some(5), 1, 0);
    assert_eq!(
        names(&listing),
        vec![
            (6, 1, "docs".to_string()),
            (2, 2, "a.txt".to_string()),
            (5, 3, ".".to_string()),
            (5, 4, "..".to_string()),
        ]
    );
    assert_eq!(listing[0].kind, FileKind::Directory);
    assert_eq!(listing[1].kind, FileKind::RegularFile);
    let rest = fs.readdir(Some(5), 1, 2);
    assert_eq!(names(&rest), vec![(5, 3, ".".to_string()), (5, 4, "..".to_string())]);
    assert!(fs.readdir(Some(5), 1, 9).is_empty());
}

#[test]
fn readdir_without_session_lists_readonly_root() {
    let fs = sample();
    let listing = fs.readdir(None, 1, 0);
    assert_eq!(
        names(&listing),
        vec![(2, 1, "a.txt".to_string()), (3, 2, "docs".to_string()), (1, 3, ".".to_string()), (1, 4, "..".to_string())]
    );
}

#[test]
fn readdir_hides_deleted_entries() {
    let mut fs = with_session();
    fs.unlink(Some(5), 6, "b.txt".to_string());
    let listing = fs.readdir(Some(5), 6, 0);
    assert_eq!(names(&listing), vec![(6, 1, ".".to_string()), (6, 2, "..".to_string())]);
}

#[test]
fn write_to_readonly_file_copies_up() {
    let mut fs = with_session();
    let r = fs.write(Some(5), 2, 0, b"XY", t1());
    assert!(matches!(r, WriteReply::Written(2)));
    assert_eq!(fs.curr_inode_val, 7);
    assert_eq!(fs.read(2, 0), b"hello".to_vec());
    assert_eq!(fs.read(7, 0), b"hXYellohello".to_vec());
    assert_eq!(fs.check_writable_path(5, &"a.txt".to_string()), Some(7));
    let r = fs.lookup(Some(5), 1, &"a.txt".to_string(), t1());
    assert_eq!(entry_ino(&r), Some(7));
}

#[test]
fn write_copy_up_without_session() {
    let mut fs = sample();
    let r = fs.write(None, 2, 1, b"", t1());
    assert!(matches!(r, WriteReply::Written(0)));
    assert_eq!(fs.read(5, 0), b"hello".to_vec());
    assert_eq!(fs.inode_to_string_mapping.get(&5).unwrap(), "a.txt");
}

#[test]
fn write_into_writable_file_inserts() {
    let mut fs = with_session();
    fs.write(Some(5), 2, 0, b"XY", t1());
    let r = fs.write(Some(5), 7, 0, b"Z", t1());
    assert!(matches!(r, WriteReply::Written(1)));
    assert_eq!(fs.read(7, 0), b"ZhXYellohello".to_vec());
    let r = fs.write(Some(5), 7, 13, b"!", t1());
    assert!(matches!(r, WriteReply::Written(1)));
    assert_eq!(fs.read(7, 10), b"llo!".to_vec());
}

#[test]
fn write_into_mknod_file() {
    let mut plain = sample();
    plain.mknod(1, "n".to_string(), t1());
    let r = plain.write(None, 5, 0, b"q", t1());
    assert!(matches!(r, WriteReply::Written(1)));
    assert_eq!(plain.read(5, 0), b"q".to_vec());
}

#[test]
fn open_hands_out_increasing_handles() {
    let mut fs = sample();
    assert_eq!(fs.open(2), 1);
    assert_eq!(fs.open(2), 2);
    assert_eq!(fs.curr_file_handle, 2);
}

#[test]
fn mknod_makes_empty_writable_file() {
    let mut fs = with_session();
    let r = fs.mknod(6, "dev".to_string(), t1());
    match r {
        EntryReply::Entry { attr, generation } => {
            assert_eq!(attr.ino, 7);
            assert_eq!(attr.kind, FileKind::RegularFile);
            assert_eq!(generation, 1);
        }
        _ => panic!("mknod failed"),
    }
    assert_eq!(fs.check_writable_path(6, &"dev".to_string()), Some(7));
    assert_eq!(fs.read(7, 0), Vec::<u8>::new());
    assert_eq!(fs.writable_to_readable_inode.get(&7), Some(&None));
}

#[test]
fn mkdir_then_lookup_finds_it() {
    let mut fs = with_session();
    let made = fs.mkdir(Some(5), 6, "sub".to_string(), t1());
    assert_eq!(entry_ino(&made), Some(7));
    let found = fs.lookup(Some(5), 6, &"sub".to_string(), t1());
    assert_eq!(entry_ino(&found), Some(7));
    let again = fs.mkdir(Some(5), 6, "sub".to_string(), t1());
    assert!(matches!(again, EntryReply::Error(FsError::AlreadyExists)));
    assert_eq!(fs.curr_inode_val, 8);
}

#[test]
fn mkdir_in_root_goes_to_session_root() {
    let mut fs = with_session();
    let made = fs.mkdir(Some(5), 1, "top".to_string(), t1());
    assert_eq!(entry_ino(&made), Some(7));
    assert_eq!(fs.check_writable_path(5, &"top".to_string()), Some(7));
    assert_eq!(fs.check_readable_path(1, &"top".to_string()), None);
    let found = fs.lookup(Some(5), 1, &"top".to_string(), t1());
    match found {
        EntryReply::Entry { attr, generation } => {
            assert_eq!(attr.ino, 7);
            assert_eq!(generation, 0);
        }
        _ => panic!("top not found"),
    }
    let clash = fs.mkdir(Some(5), 1, "a.txt".to_string(), t1());
    assert!(matches!(clash, EntryReply::Error(FsError::AlreadyExists)));
}

#[test]
fn create_then_lookup_finds_it() {
    let mut fs = with_session();
    fs.open(2);
    let r = fs.create(Some(5), 6, "new.txt".to_string(), t1());
    match r {
        CreateReply::Created { attr, generation, fh } => {
            assert_eq!(attr.ino, 7);
            assert_eq!(generation, 0);
            assert_eq!(fh, 1);
        }
        _ => panic!("create failed"),
    }
    let found = fs.lookup(Some(5), 6, &"new.txt".to_string(), t1());
    assert_eq!(entry_ino(&found), Some(7));
    let again = fs.create(Some(5), 6, "new.txt".to_string(), t1());
    assert!(matches!(again, CreateReply::Error(FsError::AlreadyExists)));
}

#[test]
fn create_in_root_needs_name_in_both_layers() {
    let mut fs = with_session();
    let r = fs.create(Some(5), 1, "fresh".to_string(), t1());
    assert!(matches!(r, CreateReply::Error(FsError::AlreadyExists)));
    let r = fs.create(Some(5), 1, "docs".to_string(), t1());
    match r {
        CreateReply::Created { attr, .. } => assert_eq!(attr.ino, 7),
        _ => panic!("create failed"),
    }
    assert_eq!(fs.check_writable_path(5, &"docs".to_string()), Some(7));
}

#[test]
fn unlink_then_lookup_not_found() {
    let mut fs = with_session();
    fs.create(Some(5), 6, "new.txt".to_string(), t1());
    fs.unlink(Some(5), 6, "new.txt".to_string());
    assert!(fs.getattr(7).is_none());
    assert_eq!(fs.check_writable_path(6, &"new.txt".to_string()), Some(0));
    let r = fs.lookup(Some(5), 6, &"new.txt".to_string(), t1());
    assert!(matches!(r, EntryReply::Error(FsError::NotFound)));
}

#[test]
fn unlink_readonly_file_hides_it() {
    let mut fs = with_session();
    fs.unlink(Some(5), 6, "b.txt".to_string());
    assert_eq!(fs.check_writable_path(6, &"b.txt".to_string()), Some(0));
    assert_eq!(fs.read(4, 0), b"bee".to_vec());
    let r = fs.lookup(Some(5), 6, &"b.txt".to_string(), t1());
    assert!(matches!(r, EntryReply::Error(FsError::NotFound)));
}

#[test]
fn unlink_readonly_file_in_root_hides_it() {
    let mut fs = with_session();
    fs.unlink(Some(5), 1, "a.txt".to_string());
    assert_eq!(fs.check_writable_path(5, &"a.txt".to_string()), Some(0));
    let r = fs.lookup(Some(5), 1, &"a.txt".to_string(), t1());
    assert!(matches!(r, EntryReply::Error(FsError::NotFound)));
}

#[test]
fn rmdir_then_lookup_not_found() {
    let mut fs = with_session();
    fs.mkdir(Some(5), 6, "sub".to_string(), t1());
    fs.rmdir(Some(5), 6, "sub".to_string());
    assert!(fs.getattr(7).is_none());
    let r = fs.lookup(Some(5), 6, &"sub".to_string(), t1());
    assert!(matches!(r, EntryReply::Error(FsError::NotFound)));
}

#[test]
fn rmdir_in_root_removes_session_twin() {
    let mut fs = with_session();
    fs.rmdir(Some(5), 1, "docs".to_string());
    assert!(fs.getattr(6).is_none());
    assert!(fs.getattr(3).is_some());
    let r = fs.lookup(Some(5), 1, &"docs".to_string(), t1());
    assert!(matches!(r, EntryReply::Error(FsError::NotFound)));
}

#[test]
fn rename_within_root_copies_readonly_file() {
    let mut fs = with_session();
    let r = fs.rename(Some(5), 1, "a.txt".to_string(), 1, "c.txt".to_string(), t1());
    assert_eq!(r, Ok(()));
    assert_eq!(fs.curr_inode_val, 7);
    assert_eq!(fs.check_writable_path(5, &"a.txt".to_string()), Some(0));
    assert_eq!(fs.check_writable_path(5, &"c.txt".to_string()), Some(7));
    assert_eq!(fs.read(7, 0), b"hello".to_vec());
    assert_eq!(fs.inode_to_string_mapping.get(&7).unwrap(), "c.txt");
    let found = fs.lookup(Some(5), 1, &"c.txt".to_string(), t1());
    assert_eq!(entry_ino(&found), Some(7));
    let gone = fs.lookup(Some(5), 1, &"a.txt".to_string(), t1());
    assert!(matches!(gone, EntryReply::Error(FsError::NotFound)));
}

#[test]
fn rename_out_of_root_into_directory() {
    let mut fs = with_session();
    let r = fs.rename(Some(5), 1, "a.txt".to_string(), 6, "moved.txt".to_string(), t1());
    assert_eq!(r, Ok(()));
    assert_eq!(fs.check_writable_path(5, &"a.txt".to_string()), Some(0));
    assert_eq!(fs.check_writable_path(6, &"moved.txt".to_string()), Some(7));
    assert_eq!(fs.read(7, 0), b"hello".to_vec());
}

#[test]
fn rename_between_other_directories_only_deletes() {
    let mut fs = with_session();
    fs.mkdir(Some(5), 6, "sub".to_string(), t1());
    fs.create(Some(5), 6, "f".to_string(), t1());
    let r = fs.rename(Some(5), 6, "f".to_string(), 7, "g".to_string(), t1());
    assert_eq!(r, Err(FsError::NotFound));
    assert_eq!(fs.check_writable_path(6, &"f".to_string()), Some(0));
    assert_eq!(fs.check_writable_path(7, &"g".to_string()), None);
    let same = fs.rename(Some(5), 6, "x".to_string(), 6, "y".to_string(), t1());
    assert_eq!(same, Err(FsError::NotFound));
}

#[test]
fn strip_takes_the_last_component() {
    assert_eq!(strip("/srv/data", "/srv/data/a.txt"), "a.txt");
    assert_eq!(strip("/srv/data/docs", "/srv/data/docs/b.txt"), "b.txt");
    assert_eq!(strip("", "/a/b"), "ab");
    assert_eq!(strip("x", "axbx/c"), "abc");
}

#[test]
fn node_accessors() {
    let fs = sample();
    let a = fs.inode_to_content_mapping.get(&2).unwrap();
    assert_eq!(a.get_inode_kind(), FileKind::RegularFile);
    assert!(a.node_kind.children_of_directory().is_none());
    assert_eq!(a.node_kind.get_file_content().unwrap(), &b"hello".to_vec());
    assert_eq!(a.node_kind.is_it_present_in_readable_path(), Some(true));
    assert_eq!(a.node_kind.is_it_present_in_writable_path(), Some(false));
    let d = fs.inode_to_content_mapping.get(&3).unwrap();
    assert_eq!(d.get_inode_kind(), FileKind::Directory);
    assert_eq!(d.node_kind.children_of_directory().unwrap().len(), 1);
    assert!(d.node_kind.get_file_content().is_none());
    assert_eq!(d.node_kind.get_writable_parent_instance_for_files(1), None);
}

#[test]
fn counters_increment() {
    let mut v: u64 = 41;
    unionfs::state::increment_global_inode_val(&mut v);
    assert_eq!(v, 42);
    unionfs::state::increment_global_file_handle(&mut v);
    assert_eq!(v, 43);
}

#[test]
fn sessions_do_not_see_each_other() {
    let mut fs = with_session();
    let other = fs.lookup(Some(7), 1, &"a.txt".to_string(), t1());
    assert_eq!(entry_ino(&other), Some(2));
    assert_eq!(fs.session_id_mapping.get(&7), Some(&7));
    fs.mkdir(Some(5), 1, "mine".to_string(), t1());
    let seen = fs.lookup(Some(7), 1, &"mine".to_string(), t1());
    assert!(matches!(seen, EntryReply::Error(FsError::NotFound)));
    let own = fs.lookup(Some(5), 1, &"mine".to_string(), t1());
    assert!(entry_ino(&own).is_some());
    fs.unlink(Some(5), 1, "a.txt".to_string());
    let still = fs.lookup(Some(7), 1, &"a.txt".to_string(), t1());
    assert_eq!(entry_ino(&still), Some(2));
}

fn file(path: &str, bytes: &[u8]) -> ScannedTree {
    ScannedTree::File { path: path.to_string(), content: bytes.to_vec() }
}

/// /srv/data: "a.txt", "docs" holding "b.txt" and "sub" (holding "c"),
/// a fifo "fifo", and "z".
fn scanned() -> Vec<ScannedTree> {
    vec![
        file("/srv/data/a.txt", b"hello"),
        ScannedTree::Directory {
            path: "/srv/data/docs".to_string(),
            entries: vec![
                file("/srv/data/docs/b.txt", b"bee"),
                ScannedTree::Directory {
                    path: "/srv/data/docs/sub".to_string(),
                    entries: vec![file("/srv/data/docs/sub/c", b"c")],
                },
            ],
        },
        ScannedTree::Other { path: "/srv/data/fifo".to_string() },
        file("/srv/data/z", b"zz"),
    ]
}

#[test]
fn instantiate_tree_numbers_entries_in_scan_order() {
    let mut fs = UnionFs::new(PathBuf::from("/srv/data"), t0());
    let tree = scanned();
    assert!(fs.accepts_instantiate_tree(1, "/srv/data", &tree, t0()));
    fs.instantiate_tree(1, "/srv/data", &tree, t0());
    assert_eq!(fs.curr_inode_val, 8);
    assert_eq!(fs.check_readable_path(1, &"a.txt".to_string()), Some(2));
    assert_eq!(fs.check_readable_path(1, &"docs".to_string()), Some(3));
    assert_eq!(fs.check_readable_path(3, &"b.txt".to_string()), Some(4));
    assert_eq!(fs.check_readable_path(3, &"sub".to_string()), Some(5));
    assert_eq!(fs.check_readable_path(5, &"c".to_string()), Some(6));
    assert_eq!(fs.check_readable_path(1, &"fifo".to_string()), Some(7));
    assert_eq!(fs.check_readable_path(1, &"z".to_string()), Some(8));
    assert!(fs.getattr(7).is_none());
    assert_eq!(fs.getattr(5).unwrap().kind, FileKind::Directory);
    assert_eq!(fs.read(6, 0), b"c".to_vec());
    assert_eq!(fs.read(8, 0), b"zz".to_vec());
    assert_eq!(fs.inode_to_string_mapping.get(&6).unwrap(), "c");
}

#[test]
fn instantiate_tree_agrees_with_entry_by_entry() {
    let mut fs = UnionFs::new(PathBuf::from("/srv/data"), t0());
    let tree = vec![
        file("/srv/data/a.txt", b"hello"),
        ScannedTree::Directory {
            path: "/srv/data/docs".to_string(),
            entries: vec![file("/srv/data/docs/b.txt", b"bee")],
        },
    ];
    fs.instantiate_tree(1, "/srv/data", &tree, t0());
    let one_by_one = sample();
    assert_eq!(fs.curr_inode_val, one_by_one.curr_inode_val);
    assert_eq!(names(&fs.readdir(None, 1, 0)), names(&one_by_one.readdir(None, 1, 0)));
    assert_eq!(names(&fs.readdir(None, 3, 0)), names(&one_by_one.readdir(None, 3, 0)));
    assert_eq!(fs.read(4, 0), one_by_one.read(4, 0));
}

#[test]
fn instantiate_tree_of_nothing_changes_nothing() {
    let mut fs = sample();
    fs.instantiate_tree(3, "/srv/data/docs", &Vec::new(), t1());
    assert_eq!(fs.curr_inode_val, 4);
    assert_eq!(names(&fs.readdir(None, 3, 0)).len(), 3);
}

#[test]
fn readdir_lists_each_name_once() {
    let mut fs = with_session();
    fs.write(Some(5), 2, 0, b"XY", t1());
    let listing = fs.readdir(Some(5), 1, 0);
    assert_eq!(
        names(&listing),
        vec![
            (6, 1, "docs".to_string()),
            (7, 2, "a.txt".to_string()),
            (5, 3, ".".to_string()),
            (5, 4, "..".to_string()),
        ]
    );
    for (i, a) in listing.iter().enumerate() {
        for b in &listing[i + 1..] {
            assert_ne!(a.name, b.name);
        }
    }
}
