use std::path::PathBuf;
use std::time::SystemTime;
use unionfs::path::strip;
use unionfs::scan::{ScannedKind, ScannedTree};
use unionfs::state::UnionFs;

fn now() -> SystemTime {
    SystemTime::UNIX_EPOCH
}

/// root (1): "a.txt" (2), "docs" (3) holding "b.txt" (4); session 5 started.
fn served() -> UnionFs {
    let mut fs = UnionFs::new(PathBuf::from("/srv"), now());
    fs.instantiate_entry(1, "a.txt".to_string(), ScannedKind::File(b"hello".to_vec()), now());
    fs.instantiate_entry(1, "docs".to_string(), ScannedKind::Directory, now());
    fs.instantiate_entry(3, "b.txt".to_string(), ScannedKind::File(b"bee".to_vec()), now());
    fs.lookup(Some(5), 1, &"docs".to_string(), now());
    fs
}

#[test]
fn read_is_accepted_within_the_file() {
    let fs = served();
    assert!(fs.accepts_read(2, 0));
    assert!(fs.accepts_read(2, 5));
    assert!(!fs.accepts_read(2, 6));
    assert!(!fs.accepts_read(3, 0));
    assert!(!fs.accepts_read(99, 0));
}

#[test]
fn instantiate_needs_a_directory_parent() {
    let fs = served();
    let k = ScannedKind::Directory;
    assert!(fs.accepts_instantiate(3, &"x".to_string(), &k, now()));
    assert!(fs.accepts_instantiate(99, &"x".to_string(), &k, now()));
    assert!(!fs.accepts_instantiate(2, &"x".to_string(), &k, now()));
}

#[test]
fn making_names_needs_a_directory() {
    let fs = served();
    assert!(fs.accepts_mknod(6, &"n".to_string(), now()));
    assert!(!fs.accepts_mknod(2, &"n".to_string(), now()));
    assert!(fs.accepts_mkdir(Some(5), 1, &"n".to_string(), now()));
    assert!(!fs.accepts_mkdir(Some(8), 1, &"n".to_string(), now()));
    assert!(fs.accepts_mkdir(None, 1, &"n".to_string(), now()));
    assert!(!fs.accepts_mkdir(None, 2, &"n".to_string(), now()));
    assert!(fs.accepts_create(Some(5), 6, &"n".to_string(), now()));
    assert!(!fs.accepts_create(Some(8), 1, &"n".to_string(), now()));
}

#[test]
fn removal_needs_the_name() {
    let fs = served();
    assert!(fs.accepts_rmdir(Some(5), 1, &"docs".to_string()));
    assert!(!fs.accepts_rmdir(Some(5), 1, &"nope".to_string()));
    assert!(!fs.accepts_rmdir(Some(5), 6, &"nope".to_string()));
    assert!(fs.accepts_unlink(Some(5), 6, &"b.txt".to_string()));
    assert!(fs.accepts_unlink(Some(5), 1, &"a.txt".to_string()));
    assert!(!fs.accepts_unlink(Some(5), 2, &"a.txt".to_string()));
}

#[test]
fn rename_checks() {
    let fs = served();
    assert!(fs.accepts_rename(Some(5), 1, &"a.txt".to_string(), 1, &"c".to_string(), now()));
    assert!(!fs.accepts_rename(Some(5), 1, &"zz".to_string(), 1, &"c".to_string(), now()));
    assert!(fs.accepts_rename(Some(5), 1, &"a.txt".to_string(), 6, &"c".to_string(), now()));
    assert!(!fs.accepts_rename(Some(5), 1, &"a.txt".to_string(), 2, &"c".to_string(), now()));
    assert!(fs.accepts_rename(None, 6, &"x".to_string(), 3, &"y".to_string(), now()));
    assert!(!fs.accepts_rename(None, 2, &"x".to_string(), 3, &"y".to_string(), now()));
}

#[test]
fn write_checks() {
    let fs = served();
    assert!(fs.accepts_write(Some(5), 2, 0, b"x", now()));
    assert!(fs.accepts_write(Some(5), 2, 9, b"x", now()));
    assert!(!fs.accepts_write(Some(5), 2, 10, b"x", now()));
    assert!(fs.accepts_write(None, 2, 4, b"x", now()));
    assert!(!fs.accepts_write(None, 2, 5, b"x", now()));
    assert!(!fs.accepts_write(Some(9), 2, 0, b"x", now()));
    assert!(!fs.accepts_write(Some(5), 3, 0, b"x", now()));
    assert!(!fs.accepts_write(Some(5), 99, 0, b"x", now()));
}

#[test]
fn readdir_checks() {
    let fs = served();
    assert!(fs.accepts_readdir(Some(5), 1));
    assert!(fs.accepts_readdir(None, 3));
    assert!(!fs.accepts_readdir(None, 2));
    assert!(!fs.accepts_readdir(None, 99));
}

#[test]
fn lookup_checks() {
    let fs = served();
    assert_eq!(fs.accepts_lookup(Some(5), 1, &"a.txt".to_string(), now()), Some(true));
    assert_eq!(fs.accepts_lookup(Some(5), 6, &"b.txt".to_string(), now()), Some(true));
    assert_eq!(fs.accepts_lookup(Some(5), 2, &"b.txt".to_string(), now()), Some(false));
    assert_eq!(fs.accepts_lookup(Some(7), 1, &"a.txt".to_string(), now()), None);
    assert_eq!(fs.accepts_lookup(Some(0), 1, &"a.txt".to_string(), now()), Some(true));
    assert_eq!(fs.accepts_lookup(None, 2, &"a.txt".to_string(), now()), Some(true));
    assert!(fs.is_dir_node(6));
    assert!(!fs.is_dir_node(2));
}

#[test]
fn stripped_names_hold_no_slash() {
    for (p, c) in [("/srv", "/srv/a/b"), ("", "///"), ("/srv/", "/srv//x/")] {
        assert!(!strip(p, c).contains('/'));
    }
}

#[test]
fn start_session_checks() {
    let mut fs = UnionFs::new(PathBuf::from("/srv"), now());
    fs.instantiate_entry(1, "docs".to_string(), ScannedKind::Directory, now());
    fs.instantiate_entry(2, "deep".to_string(), ScannedKind::Directory, now());
    assert_eq!(fs.walk_readable(1, 10), Some(8));
    assert_eq!(fs.walk_readable(1, 1), None);
    assert_eq!(fs.walk_readable(2, 10), Some(9));
    assert!(fs.accepts_start_session(4, now()));
    fs.start_session(4, now());
    assert_eq!(fs.session_id_mapping.get(&4), Some(&4));
    assert_eq!(fs.curr_inode_val, 6);
    assert_eq!(fs.check_writable_path(4, &"docs".to_string()), Some(5));
    assert_eq!(fs.check_writable_path(5, &"deep".to_string()), Some(6));
    assert_eq!(fs.accepts_lookup(Some(4), 1, &"docs".to_string(), now()), Some(true));
}

#[test]
fn start_session_refused_where_counter_runs_out() {
    let mut fs = UnionFs::new(PathBuf::from("/srv"), now());
    fs.instantiate_entry(1, "docs".to_string(), ScannedKind::Directory, now());
    fs.curr_inode_val = u64::MAX - 1;
    assert!(!fs.accepts_start_session(4, now()));
    fs.curr_inode_val = u64::MAX - 2;
    assert!(fs.accepts_start_session(4, now()));
}

#[test]
fn start_session_refused_where_an_entry_is_missing() {
    let mut fs = UnionFs::new(PathBuf::from("/srv"), now());
    fs.instantiate_entry(1, "fifo".to_string(), ScannedKind::Other, now());
    assert!(!fs.accepts_start_session(4, now()));
    assert!(fs.accepts_instantiate(1, &"x".to_string(), &ScannedKind::Directory, now()));
}

#[test]
fn probe_names() {
    assert!(unionfs::lookup::is_probe(&".Trash".to_string()));
    assert!(!unionfs::lookup::is_probe(&"Trash".to_string()));
}

#[test]
fn instantiate_tree_checks() {
    let fresh = UnionFs::new(PathBuf::from("/srv"), now());
    let tree = vec![
        ScannedTree::Directory {
            path: "/srv/d".to_string(),
            entries: vec![ScannedTree::Other { path: "/srv/d/p".to_string() }],
        },
        ScannedTree::File { path: "/srv/f".to_string(), content: b"x".to_vec() },
    ];
    assert!(fresh.accepts_instantiate_tree(1, "/srv", &tree, now()));
    assert!(fresh.accepts_instantiate_tree(1, "/srv", &Vec::new(), now()));
    assert!(!fresh.accepts_instantiate_tree(7, "/srv", &tree, now()));
    let fs = served();
    assert!(!fs.accepts_instantiate_tree(2, "/srv", &tree, now()));
    assert!(fs.accepts_instantiate_tree(3, "/srv/docs", &tree, now()));
    let mut nearly_full = UnionFs::new(PathBuf::from("/srv"), now());
    nearly_full.curr_inode_val = u64::MAX - 3;
    assert!(nearly_full.accepts_instantiate_tree(1, "/srv", &tree, now()));
    nearly_full.curr_inode_val = u64::MAX - 2;
    assert!(!nearly_full.accepts_instantiate_tree(1, "/srv", &tree, now()));
}
