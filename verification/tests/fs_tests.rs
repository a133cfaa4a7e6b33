use ext4_rs::error::ErrCode;
use ext4_rs::file::{FileHandler, OpenFlags};
use ext4_rs::fs::Ext4;
use ext4_rs::inode::{EXT4_INODE_MODE_DIRECTORY, EXT4_INODE_MODE_FILE};
use ext4_rs::model::EXT4_ROOT_INO;

const ROOT: u32 = EXT4_ROOT_INO;
const FILE: u16 = EXT4_INODE_MODE_FILE | 0o644;
const DIR: u16 = EXT4_INODE_MODE_DIRECTORY | 0o755;

fn code<T: std::fmt::Debug>(r: Result<T, ext4_rs::error::Ext4Error>) -> ErrCode {
    r.unwrap_err().code()
}

fn entry_names(fs: &Ext4, dir: u32) -> Vec<Vec<u8>> {
    let d = fs.read_inode(dir);
    fs.dir_list_entries(&d).into_iter().map(|e| e.name).collect()
}

#[test]
fn new_filesystem_has_root_directory() {
    let fs = Ext4::new(32);
    let root = fs.read_inode(ROOT);
    assert!(root.inode.is_dir());
    assert_eq!(root.inode.link_count(), 2);
    assert_eq!(entry_names(&fs, ROOT), vec![b".".to_vec(), b"..".to_vec()]);
    assert_eq!(fs.generic_lookup(ROOT, ""), Ok(ROOT));
    assert_eq!(fs.generic_lookup(ROOT, "/"), Ok(ROOT));
    assert_eq!(fs.generic_lookup(ROOT, "."), Ok(ROOT));
    assert_eq!(fs.generic_lookup(ROOT, "./.."), Ok(ROOT));
    assert!(!fs.read_inode(11).inode.is_dir());
}

#[test]
fn create_then_lookup_finds_it() {
    let mut fs = Ext4::new(32);
    let id = fs.generic_create(ROOT, "a/b/c", FILE).unwrap();
    assert_eq!(id, 13);
    assert_eq!(fs.generic_lookup(ROOT, "a/b/c"), Ok(id));
    assert_eq!(fs.generic_lookup(ROOT, "/a/b/c"), Ok(id));
    let a = fs.generic_lookup(ROOT, "a").unwrap();
    let b = fs.generic_lookup(ROOT, "a/b").unwrap();
    assert_eq!((a, b), (11, 12));
    assert_eq!(fs.generic_lookup(a, "b/c"), Ok(id));
    assert!(fs.read_inode(a).inode.is_dir());
    assert!(fs.read_inode(b).inode.is_dir());
    assert!(fs.read_inode(id).inode.is_file());
    assert_eq!(fs.read_inode(id).inode.link_count(), 1);
    assert_eq!(fs.read_inode(b).inode.link_count(), 2);
    assert_eq!(fs.read_inode(a).inode.link_count(), 3);
    assert_eq!(fs.read_inode(ROOT).inode.link_count(), 3);
    assert_eq!(entry_names(&fs, b), vec![b".".to_vec(), b"..".to_vec(), b"c".to_vec()]);
    assert_eq!(fs.generic_lookup(b, ".."), Ok(a));
}

#[test]
fn create_existing_object_fails_with_eexist() {
    let mut fs = Ext4::new(32);
    fs.generic_create(ROOT, "d/f", FILE).unwrap();
    assert_eq!(code(fs.generic_create(ROOT, "d/f", FILE)), ErrCode::EEXIST);
    assert_eq!(code(fs.generic_create(ROOT, "d", DIR)), ErrCode::EEXIST);
    assert_eq!(code(fs.generic_create(ROOT, ".", DIR)), ErrCode::EEXIST);
    assert_eq!(fs.generic_lookup(ROOT, "d/f"), Ok(12));
}

#[test]
fn create_with_empty_path_fails_with_eexist() {
    let mut fs = Ext4::new(32);
    assert_eq!(code(fs.generic_create(ROOT, "", FILE)), ErrCode::EEXIST);
    assert_eq!(code(fs.generic_create(ROOT, "//", FILE)), ErrCode::EEXIST);
    assert_eq!(entry_names(&fs, ROOT), vec![b".".to_vec(), b"..".to_vec()]);
    assert!(!fs.read_inode(11).inode.is_dir());
    assert_eq!(fs.generic_create(ROOT, "x", FILE), Ok(11));
}

#[test]
fn create_under_a_file_fails_with_enotdir() {
    let mut fs = Ext4::new(32);
    fs.generic_create(ROOT, "f", FILE).unwrap();
    assert_eq!(code(fs.generic_create(ROOT, "f/g", FILE)), ErrCode::ENOTDIR);
    assert_eq!(code(fs.generic_lookup(ROOT, "f/g")), ErrCode::ENOTDIR);
}

#[test]
fn create_without_free_inode_fails_with_enospc() {
    let mut fs = Ext4::new(13);
    assert_eq!(fs.generic_create(ROOT, "x", FILE), Ok(11));
    assert_eq!(fs.generic_create(ROOT, "y", FILE), Ok(12));
    assert_eq!(code(fs.generic_create(ROOT, "z", FILE)), ErrCode::ENOSPC);
    assert_eq!(code(fs.generic_lookup(ROOT, "z")), ErrCode::ENOENT);
}

#[test]
fn lookup_missing_object_fails_with_enoent() {
    let fs = Ext4::new(32);
    assert_eq!(code(fs.generic_lookup(ROOT, "nothing")), ErrCode::ENOENT);
    assert_eq!(code(fs.generic_lookup(ROOT, "a/b")), ErrCode::ENOENT);
    assert_eq!(code(fs.lookup(ROOT, b"nothing")), ErrCode::ENOENT);
}

#[test]
fn open_regular_file_gives_handle_at_start() {
    let mut fs = Ext4::new(32);
    let id = fs.generic_create(ROOT, "dir/file", FILE).unwrap();
    let flags = OpenFlags { bits: 2 };
    let fh = fs.generic_open(ROOT, "dir/file", flags).unwrap();
    assert_eq!(fh, FileHandler { inode: id, flags, fsize: 0, fpos: 0 });
    assert_eq!(FileHandler::new(5, flags, 9), FileHandler { inode: 5, flags, fsize: 9, fpos: 0 });
}

#[test]
fn open_directory_fails_with_eisdir() {
    let mut fs = Ext4::new(32);
    fs.generic_create(ROOT, "dir/file", FILE).unwrap();
    let flags = OpenFlags { bits: 0 };
    assert_eq!(code(fs.generic_open(ROOT, "dir", flags)), ErrCode::EISDIR);
    assert_eq!(code(fs.generic_open(ROOT, "", flags)), ErrCode::EISDIR);
    assert_eq!(code(fs.generic_open(ROOT, "missing", flags)), ErrCode::ENOENT);
    assert_eq!(code(fs.generic_open(ROOT, "dir/file/x", flags)), ErrCode::ENOTDIR);
}

#[test]
fn remove_file_then_lookup_fails() {
    let mut fs = Ext4::new(32);
    let id = fs.generic_create(ROOT, "d/f", FILE).unwrap();
    assert_eq!(fs.generic_remove(ROOT, "d/f"), Ok(()));
    assert_eq!(code(fs.generic_lookup(ROOT, "d/f")), ErrCode::ENOENT);
    assert_eq!(entry_names(&fs, 11), vec![b".".to_vec(), b"..".to_vec()]);
    // The released inode is taken again by the next creation.
    assert_eq!(fs.generic_create(ROOT, "d/g", FILE), Ok(id));
}

#[test]
fn remove_non_empty_directory_fails_with_enotempty() {
    let mut fs = Ext4::new(32);
    fs.generic_create(ROOT, "d/f", FILE).unwrap();
    assert_eq!(code(fs.generic_remove(ROOT, "d")), ErrCode::ENOTEMPTY);
    assert_eq!(fs.generic_lookup(ROOT, "d/f"), Ok(12));
}

#[test]
fn remove_empty_directory() {
    let mut fs = Ext4::new(32);
    let d = fs.generic_create(ROOT, "d", DIR).unwrap();
    assert_eq!(fs.read_inode(ROOT).inode.link_count(), 3);
    assert_eq!(fs.generic_remove(ROOT, "d"), Ok(()));
    assert_eq!(code(fs.generic_lookup(ROOT, "d")), ErrCode::ENOENT);
    assert_eq!(fs.read_inode(ROOT).inode.link_count(), 2);
    assert!(!fs.read_inode(d).inode.is_dir());
    assert_eq!(entry_names(&fs, ROOT), vec![b".".to_vec(), b"..".to_vec()]);
}

#[test]
fn remove_missing_object_fails_with_enoent() {
    let mut fs = Ext4::new(32);
    assert_eq!(code(fs.generic_remove(ROOT, "nothing")), ErrCode::ENOENT);
    assert_eq!(code(fs.generic_remove(ROOT, "a/b")), ErrCode::ENOENT);
}

#[test]
fn remove_under_a_file_fails_with_enotdir() {
    let mut fs = Ext4::new(32);
    fs.generic_create(ROOT, "f", FILE).unwrap();
    assert_eq!(code(fs.generic_remove(ROOT, "f/g")), ErrCode::ENOTDIR);
}
