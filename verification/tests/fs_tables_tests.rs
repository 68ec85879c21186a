use lib::errors::KernelError;
use lib::fs::filedesc::{FileDescriptors, FileDesc};
use lib::fs::vfs::{get_path_component, get_path_component_reverse};
use lib::fs::types::{FileAccess, DirEntry, DEFAULT_DIR_ACCESS, DEFAULT_FILE_ACCESS};

#[test]
fn open_takes_the_lowest_free_number() {
    let mut files: FileDescriptors<u32> = FileDescriptors::new();
    assert_eq!(files.open(10).unwrap(), FileDesc(0));
    assert_eq!(files.open(11).unwrap(), FileDesc(1));
    assert_eq!(files.open(12).unwrap(), FileDesc(2));
    files.close(FileDesc(1)).unwrap();
    assert_eq!(files.open(13).unwrap(), FileDesc(1));
    assert_eq!(*files.get_file(FileDesc(1)).unwrap(), 13);
    assert_eq!(*files.get_file(FileDesc(2)).unwrap(), 12);
}

#[test]
fn closed_and_unknown_numbers_are_bad() {
    let mut files: FileDescriptors<u32> = FileDescriptors::new();
    files.open(5).unwrap();
    files.close(FileDesc(0)).unwrap();
    assert!(matches!(files.get_file(FileDesc(0)), Err(KernelError::BadFileNumber)));
    assert!(matches!(files.close(FileDesc(0)), Err(KernelError::BadFileNumber)));
    assert!(matches!(files.get_file(FileDesc(7)), Err(KernelError::BadFileNumber)));
}

#[test]
fn too_many_files_open() {
    let mut files: FileDescriptors<usize> = FileDescriptors::new();
    for i in 0..100 {
        assert_eq!(files.open(i).unwrap(), FileDesc(i));
    }
    assert!(matches!(files.open(100), Err(KernelError::TooManyFilesOpen)));
    files.close_all();
    assert_eq!(files.open(1).unwrap(), FileDesc(0));
}

#[test]
fn path_component_from_the_front() {
    let (first, rest) = get_path_component(b"/dev/console0");
    assert_eq!(first, b"dev".to_vec());
    assert_eq!(rest, b"/console0".to_vec());
    let (first, rest) = get_path_component(b"file.txt");
    assert_eq!(first, b"file.txt".to_vec());
    assert!(rest.is_empty());
    let (first, rest) = get_path_component(b"");
    assert!(first.is_empty() && rest.is_empty());
}

#[test]
fn path_component_from_the_back() {
    let (dir, name) = get_path_component_reverse(b"test/file.txt");
    assert_eq!(dir, b"test".to_vec());
    assert_eq!(name, b"file.txt".to_vec());
    let (dir, name) = get_path_component_reverse(b"/mnt");
    assert!(dir.is_empty());
    assert_eq!(name, b"mnt".to_vec());
    let (dir, name) = get_path_component_reverse(b"alone");
    assert!(dir.is_empty());
    assert_eq!(name, b"alone".to_vec());
}

#[test]
fn file_access_kinds() {
    assert!(FileAccess(DEFAULT_DIR_ACCESS).is_dir());
    assert!(!FileAccess(DEFAULT_DIR_ACCESS).is_file());
    assert!(FileAccess(DEFAULT_FILE_ACCESS).is_file());
    assert_eq!(FileAccess(0o040000).plus(FileAccess(0o755)).0, 0o040755);
}

#[test]
fn dir_entry_copies_its_name() {
    let mut entry = DirEntry::new(3, b"abc");
    assert_eq!(entry.inode, 3);
    entry.copy_into(b"xy");
    assert_eq!(entry.name, b"xy".to_vec());
    assert_eq!(entry.inode, 3);
}
