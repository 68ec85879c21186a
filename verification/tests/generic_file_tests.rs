use lib::fs::generic::{GenericFileVnode, GenericDirectoryVnode};
use lib::errors::KernelError;
use lib::fs::types::{FileAccess, FilePointer, Seek, DEFAULT_FILE_ACCESS, DEFAULT_DIR_ACCESS};
use lib::fs::filesystems::{TmpFilesystem, DevFilesystem, ProcFilesystem, ProcFsRootVnode, proc_state, TaskState, decimal_bytes};

#[test]
fn write_seek_read_gives_back_the_data() {
    let mut file = GenericFileVnode::empty(FileAccess(DEFAULT_FILE_ACCESS), 0, 0);
    let mut fp = FilePointer::new();
    assert_eq!(file.write(&mut fp, b"This is a test").unwrap(), 14);
    assert_eq!(file.seek(&mut fp, 0, Seek::FromStart).unwrap(), 0);
    let mut buffer = vec![0u8; 100];
    let n = file.read(&mut fp, &mut buffer).unwrap();
    assert_eq!(n, 14);
    assert_eq!(&buffer[..14], b"This is a test");
    assert_eq!(buffer[14], 0);
}

#[test]
fn writing_past_the_end_fills_the_gap_with_zeroes() {
    let mut file = GenericFileVnode::with_data(FileAccess(DEFAULT_FILE_ACCESS), 0, 0, b"ab".to_vec());
    let mut fp = FilePointer { position: 4 };
    assert_eq!(file.write(&mut fp, b"xy").unwrap(), 2);
    assert_eq!(file.contents, vec![b'a', b'b', 0, 0, b'x', b'y']);
    assert_eq!(fp.position, 6);
}

#[test]
fn writing_nothing_changes_nothing() {
    let mut file = GenericFileVnode::with_data(FileAccess(DEFAULT_FILE_ACCESS), 0, 0, b"ab".to_vec());
    let mut fp = FilePointer { position: 9 };
    assert_eq!(file.write(&mut fp, b"").unwrap(), 0);
    assert_eq!(file.contents, b"ab".to_vec());
}

#[test]
fn reading_at_the_end_reads_nothing() {
    let file = GenericFileVnode::with_data(FileAccess(DEFAULT_FILE_ACCESS), 0, 0, b"abc".to_vec());
    let mut fp = FilePointer { position: 3 };
    let mut buffer = vec![7u8; 4];
    assert_eq!(file.read(&mut fp, &mut buffer).unwrap(), 0);
    assert_eq!(buffer, vec![7u8; 4]);
}

#[test]
fn truncate_empties_the_file() {
    let mut file = GenericFileVnode::with_data(FileAccess(DEFAULT_FILE_ACCESS), 0, 0, b"abc".to_vec());
    file.truncate().unwrap();
    assert!(file.contents.is_empty());
}

#[test]
fn filesystem_type_names() {
    assert_eq!(TmpFilesystem::new().fstype(), "tmpfs");
    assert_eq!(DevFilesystem::new().fstype(), "devfs");
    assert_eq!(ProcFilesystem::new().fstype(), "procfs");
}

#[test]
fn proc_root_lists_dots_processes_and_files() {
    let root = ProcFsRootVnode::new();
    let slots = vec![Some(1u32), None, Some(42u32)];
    let mut fp = FilePointer::new();
    assert_eq!(root.readdir(&mut fp, &slots).unwrap().unwrap().name, b".".to_vec());
    assert_eq!(root.readdir(&mut fp, &slots).unwrap().unwrap().name, b"..".to_vec());
    assert_eq!(root.readdir(&mut fp, &slots).unwrap().unwrap().name, b"1".to_vec());
    assert!(root.readdir(&mut fp, &slots).unwrap().is_none());
    assert_eq!(fp.position, 3);
    fp.position = 4;
    assert_eq!(root.readdir(&mut fp, &slots).unwrap().unwrap().name, b"42".to_vec());
    assert_eq!(root.readdir(&mut fp, &slots).unwrap().unwrap().name, b"mounts".to_vec());
    assert!(root.readdir(&mut fp, &slots).unwrap().is_none());
}

#[test]
fn decimal_digits_of_numbers() {
    assert_eq!(decimal_bytes(0), b"0".to_vec());
    assert_eq!(decimal_bytes(907), b"907".to_vec());
    assert_eq!(decimal_bytes(4294967295), b"4294967295".to_vec());
}

#[test]
fn task_state_letters() {
    assert_eq!(proc_state(TaskState::Exited), 'Z');
    assert_eq!(proc_state(TaskState::Running), 'R');
    assert_eq!(proc_state(TaskState::Blocked), 'S');
}

#[test]
fn directory_in_memory_creates_looks_up_and_lists() {
    let mut dir: GenericDirectoryVnode<u32> = GenericDirectoryVnode::new(FileAccess(DEFAULT_DIR_ACCESS), 0, 0);
    dir.create(b"dev", 1).unwrap();
    dir.create(b"mnt", 2).unwrap();
    dir.create(b"dev", 3).unwrap();
    assert_eq!(*dir.lookup(b"mnt").unwrap(), 2);
    assert_eq!(*dir.lookup(b"dev").unwrap(), 1);
    assert!(matches!(dir.lookup(b"tmp"), Err(KernelError::FileNotFound)));
    let mut fp = FilePointer::new();
    assert_eq!(dir.readdir(&mut fp).unwrap().unwrap().name, b"dev".to_vec());
    assert_eq!(dir.readdir(&mut fp).unwrap().unwrap().name, b"mnt".to_vec());
    assert_eq!(dir.readdir(&mut fp).unwrap().unwrap().name, b"dev".to_vec());
    assert!(dir.readdir(&mut fp).unwrap().is_none());
    assert_eq!(fp.position, 3);
}
