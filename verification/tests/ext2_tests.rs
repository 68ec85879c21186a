use lib::block::{BlockStore, DeviceID};
use lib::errors::KernelError;
use lib::fs::ext2::superblock::{Ext2SuperBlock, alloc_bit, free_bit};
use lib::fs::ext2::inodes::{Ext2Mount, Ext2Vnode};
use lib::fs::ext2::blocks::GetFileBlockOp;
use lib::fs::ext2::directories::{to_file_type, EXT2_FT_DIR, EXT2_FT_REG_FILE, EXT2_FT_UNKNOWN};
use lib::fs::types::{FileAccess, FileAttributes, FilePointer, Seek, DEFAULT_FILE_ACCESS, DEFAULT_DIR_ACCESS};

const BS: usize = 1024;

fn put16(img: &mut Vec<u8>, off: usize, v: u16) {
    img[off] = (v & 0xff) as u8;
    img[off + 1] = (v >> 8) as u8;
}

fn put32(img: &mut Vec<u8>, off: usize, v: u32) {
    for i in 0..4 {
        img[off + i] = (v >> (8 * i)) as u8;
    }
}

fn put_dirent(img: &mut Vec<u8>, off: usize, inode: u32, rec_len: u16, name: &[u8], ftype: u8) {
    put32(img, off, inode);
    put16(img, off + 4, rec_len);
    img[off + 6] = name.len() as u8;
    img[off + 7] = ftype;
    img[off + 8..off + 8 + name.len()].copy_from_slice(name);
}

/// A small ext2 image: 64 blocks of 1024 bytes in one group, 32 inodes, the root directory
/// (inode 2) in block 9 holding "." and "..", and a file (inode 12) of 20 bytes in block 10.
fn image() -> Vec<u8> {
    let mut img = vec![0u8; 64 * BS];
    let sb = BS;
    put32(&mut img, sb, 32); // inodes
    put32(&mut img, sb + 4, 64); // blocks
    put32(&mut img, sb + 12, 53); // free blocks
    put32(&mut img, sb + 16, 29); // free inodes
    put32(&mut img, sb + 20, 1); // superblock block
    put32(&mut img, sb + 24, 0); // log block size
    put32(&mut img, sb + 28, 0); // log fragment size
    put32(&mut img, sb + 32, 8192); // blocks per group
    put32(&mut img, sb + 40, 32); // inodes per group
    put16(&mut img, sb + 56, 0xEF53); // magic
    put16(&mut img, sb + 58, 1); // state
    // group descriptor table in block 2
    let gd = 2 * BS;
    put32(&mut img, gd, 3);
    put32(&mut img, gd + 4, 4);
    put32(&mut img, gd + 8, 5);
    put16(&mut img, gd + 12, 53);
    put16(&mut img, gd + 14, 29);
    put16(&mut img, gd + 16, 1);
    // block bitmap: blocks 0..=10 used
    img[3 * BS] = 0xff;
    img[3 * BS + 1] = 0x07;
    // inode bitmap: inodes 1, 2 and 12 used
    img[4 * BS] = 0x03;
    img[4 * BS + 1] = 0x08;
    // root inode (2) at index 1 of the inode table
    let root = 5 * BS + 128;
    put16(&mut img, root, 0o040755);
    put32(&mut img, root + 4, 1024);
    put16(&mut img, root + 26, 2);
    put32(&mut img, root + 40, 9);
    // file inode (12) at index 11
    let file = 5 * BS + 11 * 128;
    put16(&mut img, file, 0o100644);
    put32(&mut img, file + 4, 20);
    put16(&mut img, file + 26, 1);
    put32(&mut img, file + 40, 10);
    // root directory
    put_dirent(&mut img, 9 * BS, 2, 12, b".", 2);
    put_dirent(&mut img, 9 * BS + 12, 2, 1012, b"..", 2);
    // file data
    img[10 * BS..10 * BS + 20].copy_from_slice(b"hello from the disk!");
    img
}

fn mount() -> Ext2Mount {
    let mut store = BlockStore::new(1024, image());
    let superblock = Ext2SuperBlock::load(DeviceID(0, 0), &mut store).unwrap();
    Ext2Mount { device_id: DeviceID(0, 0), superblock, store }
}

fn vnode(mount: &Ext2Mount, inode: u32) -> Ext2Vnode {
    let mut v = Ext2Vnode::new(FileAttributes::default_attributes());
    mount.load_inode(&mut v, inode).unwrap();
    v
}

#[test]
fn superblock_loads_from_image() {
    let m = mount();
    assert_eq!(m.superblock.block_size, 1024);
    assert_eq!(m.superblock.total_blocks, 64);
    assert_eq!(m.superblock.total_block_groups, 1);
    assert_eq!(m.superblock.groups.len(), 1);
    assert_eq!(m.superblock.groups[0].inode_table, 5);
    assert_eq!(m.superblock.groups[0].free_block_count, 53);
}

#[test]
fn superblock_with_bad_magic_is_refused() {
    let mut img = image();
    put16(&mut img, BS + 56, 0x1234);
    let mut store = BlockStore::new(1024, img);
    let r = Ext2SuperBlock::load(DeviceID(0, 0), &mut store);
    assert!(matches!(r, Err(KernelError::InvalidSuperblock)));
}

#[test]
fn superblock_with_unknown_feature_is_refused() {
    let mut img = image();
    put32(&mut img, BS + 96, 0x10);
    let mut store = BlockStore::new(1024, img);
    let r = Ext2SuperBlock::load(DeviceID(0, 0), &mut store);
    assert!(matches!(r, Err(KernelError::IncompatibleFeatures)));
}

#[test]
fn root_inode_is_loaded() {
    let m = mount();
    let root = vnode(&m, 2);
    assert!(root.attrs.access.is_dir());
    assert_eq!(root.attrs.size, 1024);
    assert_eq!(root.attrs.nlinks, 2);
    assert_eq!(root.blocks[0], 9);
}

#[test]
fn lookup_finds_dot_entries() {
    let mut m = mount();
    let mut root = vnode(&m, 2);
    assert_eq!(root.lookup(&mut m, b".").unwrap(), 2);
    assert_eq!(root.lookup(&mut m, b"..").unwrap(), 2);
    assert!(matches!(root.lookup(&mut m, b"missing"), Err(KernelError::FileNotFound)));
}

#[test]
fn lookup_in_a_file_is_refused() {
    let mut m = mount();
    let mut file = vnode(&m, 12);
    assert!(matches!(file.lookup(&mut m, b"x"), Err(KernelError::NotADirectory)));
}

#[test]
fn readdir_lists_entries_in_order() {
    let mut m = mount();
    let mut root = vnode(&m, 2);
    let mut fp = FilePointer::new();
    let first = root.readdir(&mut m, &mut fp).unwrap().unwrap();
    assert_eq!(first.name, b".".to_vec());
    assert_eq!(first.inode, 2);
    assert_eq!(fp.position, 12);
    let second = root.readdir(&mut m, &mut fp).unwrap().unwrap();
    assert_eq!(second.name, b"..".to_vec());
    assert_eq!(fp.position, 1024);
    assert!(root.readdir(&mut m, &mut fp).unwrap().is_none());
}

#[test]
fn add_then_lookup_then_remove_entry() {
    let mut m = mount();
    let mut root = vnode(&m, 2);
    root.add_directory_to_vnode(&mut m, FileAccess(DEFAULT_FILE_ACCESS), b"notes.txt", 12).unwrap();
    assert_eq!(root.lookup(&mut m, b"notes.txt").unwrap(), 12);
    assert_eq!(root.lookup(&mut m, b"..").unwrap(), 2);
    assert_eq!(root.remove_directory_entry(&mut m, b"notes.txt").unwrap(), 12);
    assert!(matches!(root.lookup(&mut m, b"notes.txt"), Err(KernelError::FileNotFound)));
}

#[test]
fn removing_the_first_entry_of_a_block_is_refused() {
    let mut m = mount();
    let mut root = vnode(&m, 2);
    assert!(matches!(root.remove_directory_entry(&mut m, b"."), Err(KernelError::InvalidInode)));
    assert!(matches!(root.remove_directory_entry(&mut m, b"nothing"), Err(KernelError::FileNotFound)));
}

#[test]
fn find_directory_space_splits_the_last_entry() {
    let mut m = mount();
    let mut root = vnode(&m, 2);
    let (block, offset) = root.find_directory_space(&mut m, 16).unwrap();
    assert_eq!(block, 9);
    assert_eq!(offset, 12);
}

#[test]
fn read_file_contents() {
    let mut m = mount();
    let mut file = vnode(&m, 12);
    let mut fp = FilePointer::new();
    let mut buffer = vec![0u8; 100];
    let n = file.read(&mut m, &mut fp, &mut buffer).unwrap();
    assert_eq!(n, 20);
    assert_eq!(&buffer[..20], b"hello from the disk!");
    assert_eq!(fp.position, 20);
}

#[test]
fn read_from_vnode_at_offset() {
    let mut m = mount();
    let mut file = vnode(&m, 12);
    let mut buffer = vec![0u8; 4];
    assert_eq!(file.read_from_vnode(&mut m, &mut buffer, 4, 6).unwrap(), 4);
    assert_eq!(&buffer[..], b"from");
}

#[test]
fn reading_a_directory_as_a_file_is_refused() {
    let mut m = mount();
    let mut root = vnode(&m, 2);
    let mut fp = FilePointer::new();
    let mut buffer = vec![0u8; 8];
    assert!(matches!(root.read(&mut m, &mut fp, &mut buffer), Err(KernelError::IsADirectory)));
}

#[test]
fn write_then_read_back_through_the_vnode() {
    let mut m = mount();
    let mut file = vnode(&m, 12);
    let mut fp = FilePointer::new();
    assert_eq!(file.write(&mut m, &mut fp, b"HELLO").unwrap(), 5);
    assert_eq!(fp.position, 5);
    assert!(file.dirty);
    file.seek(&mut fp, 0, Seek::FromStart).unwrap();
    let mut buffer = vec![0u8; 20];
    assert_eq!(file.read(&mut m, &mut fp, &mut buffer).unwrap(), 20);
    assert_eq!(&buffer[..], b"HELLO from the disk!");
}

#[test]
fn seek_stops_at_the_end_of_the_file() {
    let m = mount();
    let file = vnode(&m, 12);
    let mut fp = FilePointer::new();
    assert_eq!(file.seek(&mut fp, 100, Seek::FromStart).unwrap(), 20);
    assert_eq!(file.seek(&mut fp, 5, Seek::FromEnd).unwrap(), 20);
    fp.position = 3;
    assert_eq!(file.seek(&mut fp, 4, Seek::FromCurrent).unwrap(), 7);
}

#[test]
fn file_block_lookup_of_direct_blocks() {
    let mut m = mount();
    let mut file = vnode(&m, 12);
    assert_eq!(file.get_file_block_num(&mut m, 0, GetFileBlockOp::Lookup).unwrap(), Some(10));
    assert_eq!(file.get_file_block_num(&mut m, 1, GetFileBlockOp::Lookup).unwrap(), None);
}

#[test]
fn number_of_tiers_by_block_index() {
    let m = mount();
    let file = vnode(&m, 12);
    assert_eq!(file.get_number_of_tiers(1024, 0).unwrap(), 0);
    assert_eq!(file.get_number_of_tiers(1024, 11).unwrap(), 0);
    assert_eq!(file.get_number_of_tiers(1024, 12).unwrap(), 1);
    assert_eq!(file.get_number_of_tiers(1024, 12 + 256).unwrap(), 2);
    assert_eq!(file.get_number_of_tiers(1024, 12 + 256 + 65536).unwrap(), 3);
    assert!(matches!(file.get_number_of_tiers(1024, 12 + 256 * 256 * 256), Err(KernelError::FileSizeTooLarge)));
}

#[test]
fn to_file_type_by_mode() {
    assert_eq!(to_file_type(FileAccess(DEFAULT_DIR_ACCESS)), EXT2_FT_DIR);
    assert_eq!(to_file_type(FileAccess(DEFAULT_FILE_ACCESS)), EXT2_FT_REG_FILE);
    assert_eq!(to_file_type(FileAccess(0o644)), EXT2_FT_UNKNOWN);
}

#[test]
fn alloc_bit_takes_the_first_clear_bit() {
    let mut table = vec![0xffu8, 0x0f, 0x00];
    assert_eq!(alloc_bit(&mut table, 3), Some(12));
    assert_eq!(table[1], 0x1f);
    free_bit(&mut table, 12);
    assert_eq!(table[1], 0x0f);
    let mut full = vec![0xffu8, 0xff];
    assert_eq!(alloc_bit(&mut full, 2), None);
}

#[test]
fn create_allocates_an_inode_and_names_it() {
    let mut m = mount();
    let mut root = vnode(&m, 2);
    let created = root.create(&mut m, b"new.txt", FileAccess(DEFAULT_FILE_ACCESS), 5, 6).unwrap();
    assert_eq!(created.attrs.inode, 3);
    assert_eq!(m.superblock.total_unalloc_inodes, 28);
    assert_eq!(root.lookup(&mut m, b"new.txt").unwrap(), 3);
    let loaded = m.get_inode(3).unwrap();
    assert!(loaded.attrs.access.is_file());
    assert_eq!(loaded.attrs.uid, 5);
    assert_eq!(loaded.attrs.gid, 6);
    assert_eq!(loaded.attrs.size, 0);
}

#[test]
fn create_in_a_file_is_refused() {
    let mut m = mount();
    let mut file = vnode(&m, 12);
    assert!(matches!(file.create(&mut m, b"x", FileAccess(DEFAULT_FILE_ACCESS), 0, 0), Err(KernelError::OperationNotPermitted)));
}

#[test]
fn link_adds_a_name_and_counts_it() {
    let mut m = mount();
    let mut root = vnode(&m, 2);
    let mut file = vnode(&m, 12);
    root.link(&mut m, &mut file, b"again").unwrap();
    assert_eq!(file.attrs.nlinks, 2);
    assert!(file.dirty);
    assert_eq!(root.lookup(&mut m, b"again").unwrap(), 12);
}

#[test]
fn unallocated_inode_is_refused() {
    let m = mount();
    assert!(matches!(m.get_inode(20), Err(KernelError::InvalidInode)));
    assert!(matches!(m.get_inode(40), Err(KernelError::InvalidInode)));
}

#[test]
fn freeing_an_inode_counts_it_free() {
    let mut m = mount();
    let mut file = vnode(&m, 12);
    file.free_inode(&mut m, 12).unwrap();
    assert!(file.freed);
    assert_eq!(m.superblock.total_unalloc_inodes, 30);
    assert!(matches!(m.get_inode(12), Err(KernelError::InvalidInode)));
}

#[test]
fn writeback_stores_a_changed_inode() {
    let mut m = mount();
    let mut file = vnode(&m, 12);
    file.attrs.uid = 77;
    file.dirty = true;
    file.writeback(&mut m).unwrap();
    assert_eq!(m.get_inode(12).unwrap().attrs.uid, 77);
}

#[test]
fn rename_moves_the_name() {
    let mut m = mount();
    let mut root = vnode(&m, 2);
    let mut file = vnode(&m, 12);
    root.link(&mut m, &mut file, b"a.txt").unwrap();
    let links = root.attrs.nlinks;
    root.rename(&mut m, b"a.txt", b"b.txt").unwrap();
    assert_eq!(root.lookup(&mut m, b"b.txt").unwrap(), 12);
    assert!(matches!(root.lookup(&mut m, b"a.txt"), Err(KernelError::FileNotFound)));
    assert_eq!(root.attrs.nlinks, links - 1);
    assert!(matches!(root.rename(&mut m, b"zzz", b"y"), Err(KernelError::FileNotFound)));
}

#[test]
fn sync_then_mount_again_keeps_the_counts() {
    let mut m = Ext2Mount::create_mount(DeviceID(0, 1), BlockStore::new(1024, image())).unwrap();
    assert_eq!(m.device_id, DeviceID(0, 1));
    let mut root = vnode(&m, 2);
    root.create(&mut m, b"c", FileAccess(DEFAULT_FILE_ACCESS), 0, 0).unwrap();
    m.sync().unwrap();
    let data = m.store.into_data();
    let again = Ext2Mount::create_mount(DeviceID(0, 1), BlockStore::new(1024, data)).unwrap();
    assert_eq!(again.superblock.total_unalloc_inodes, 28);
    assert_eq!(again.superblock.groups[0].free_inode_count, 28);
    assert_eq!(again.superblock.groups[0].inode_table, 5);
}

#[test]
fn mount_of_a_short_device_fails() {
    let r = Ext2Mount::create_mount(DeviceID(0, 0), BlockStore::new(1024, vec![0u8; 1024]));
    assert!(matches!(r, Err(KernelError::IOError)));
}

#[test]
fn a_name_longer_than_a_block_is_refused() {
    let mut m = mount();
    let mut root = vnode(&m, 2);
    let long = vec![b'x'; 1020];
    assert!(root.add_directory_to_vnode(&mut m, FileAccess(DEFAULT_FILE_ACCESS), &long, 12).is_err());
}

#[test]
fn write_into_a_direct_block_reads_back() {
    let mut m = mount();
    let mut file = vnode(&m, 12);
    assert_eq!(file.write_to_vnode(&mut m, b"XYZ", 3, 6).unwrap(), 3);
    let mut buffer = vec![0u8; 20];
    file.read_from_vnode(&mut m, &mut buffer, 20, 0).unwrap();
    assert_eq!(&buffer[..], b"hello XYZm the disk!");
}

#[test]
fn rename_stores_the_new_link_count() {
    let mut m = mount();
    let mut root = vnode(&m, 2);
    let mut file = vnode(&m, 12);
    root.link(&mut m, &mut file, b"a.txt").unwrap();
    assert_eq!(m.get_inode(12).unwrap().attrs.nlinks, 1);
    root.rename(&mut m, b"a.txt", b"b.txt").unwrap();
    assert_eq!(m.get_inode(12).unwrap().attrs.nlinks, 2);
}

#[test]
fn a_full_directory_grows_by_a_block() {
    let mut m = mount();
    let mut root = vnode(&m, 2);
    let (block, offset) = root.find_directory_space(&mut m, 1004).unwrap();
    assert_eq!(block, 11);
    assert_eq!(offset, 0);
    assert_eq!(root.attrs.size, 2048);
    assert_eq!(root.blocks[1], 11);
    assert_eq!(root.blocks[0], 9);
}

#[test]
fn a_long_name_goes_into_a_new_block() {
    let mut m = mount();
    let mut root = vnode(&m, 2);
    let mut names = Vec::new();
    for first in [b'a', b'b', b'c', b'd'] {
        let mut name = vec![b'n'; 250];
        name[0] = first;
        root.add_directory_to_vnode(&mut m, FileAccess(DEFAULT_FILE_ACCESS), &name, 12).unwrap();
        names.push(name);
    }
    assert_eq!(root.attrs.size, 2048);
    assert_eq!(root.blocks[1], 11);
    for name in &names {
        assert_eq!(root.lookup(&mut m, name).unwrap(), 12);
    }
    assert_eq!(root.lookup(&mut m, b"..").unwrap(), 2);
}

#[test]
fn alloc_inode_takes_the_first_free_inode_and_stores_it() {
    let mut m = mount();
    let (num, v) = m.alloc_inode(2, FileAccess(DEFAULT_FILE_ACCESS), 5, 6).unwrap();
    assert_eq!(num, 3);
    assert_eq!(v.attrs.inode, 3);
    let loaded = m.get_inode(3).unwrap();
    assert_eq!(loaded.attrs.uid, 5);
    assert_eq!(loaded.attrs.gid, 6);
    assert_eq!(loaded.attrs.nlinks, 1);
    assert_eq!(loaded.attrs.access, FileAccess(DEFAULT_FILE_ACCESS));
}

#[test]
fn load_after_store_gives_back_the_fields() {
    let mut m = mount();
    let mut file = vnode(&m, 12);
    file.attrs.size = 77;
    file.attrs.mtime = 1234;
    file.attrs.nlinks = 3;
    file.blocks[3] = 40;
    m.store_inode(&file, 12).unwrap();
    let again = vnode(&m, 12);
    assert_eq!(again.attrs.size, 77);
    assert_eq!(again.attrs.mtime, 1234);
    assert_eq!(again.attrs.nlinks, 3);
    assert_eq!(again.blocks, file.blocks);
}

#[test]
fn reading_an_inode_with_a_clear_bit_is_refused() {
    let m = mount();
    assert!(matches!(m.get_inode(5), Err(KernelError::InvalidInode)));
    let mut v = Ext2Vnode::new(FileAttributes::default_attributes());
    assert!(matches!(m.load_inode(&mut v, 7), Err(KernelError::InvalidInode)));
}

#[test]
fn mount_without_a_descriptor_block_fails() {
    let data = image()[..2048].to_vec();
    let r = Ext2Mount::create_mount(DeviceID(0, 0), BlockStore::new(1024, data));
    assert!(matches!(r, Err(KernelError::IOError)));
}

#[test]
fn write_into_a_missing_block_allocates_it() {
    let mut m = mount();
    let mut file = vnode(&m, 12);
    assert_eq!(file.blocks[1], 0);
    assert_eq!(file.write_to_vnode(&mut m, b"abc", 3, 1030).unwrap(), 3);
    assert_eq!(file.blocks[1], 11);
    let mut buffer = vec![9u8; 8];
    file.read_from_vnode(&mut m, &mut buffer, 8, 1026).unwrap();
    assert_eq!(&buffer[..], &[0, 0, 0, 0, b'a', b'b', b'c', 0]);
}

#[test]
fn write_past_the_direct_blocks_allocates_a_table() {
    let mut m = mount();
    let mut file = vnode(&m, 12);
    let position = 12 * BS + 5;
    assert_eq!(file.write_to_vnode(&mut m, b"far", 3, position).unwrap(), 3);
    assert_eq!(file.blocks[12], 11);
    assert_eq!(file.get_file_block_num(&mut m, 12, GetFileBlockOp::Lookup).unwrap(), Some(12));
    let mut buffer = vec![9u8; 4];
    file.read_from_vnode(&mut m, &mut buffer, 4, position).unwrap();
    assert_eq!(&buffer[..], b"far\0");
}

#[test]
fn allocating_a_double_indirect_block() {
    let mut m = mount();
    let mut file = vnode(&m, 12);
    let linear = 12 + 256;
    assert_eq!(file.get_file_block_num(&mut m, linear, GetFileBlockOp::Allocate).unwrap(), Some(13));
    assert_eq!(file.blocks[13], 11);
    assert_eq!(file.get_file_block_num(&mut m, linear, GetFileBlockOp::Lookup).unwrap(), Some(13));
}

#[test]
fn write_stores_the_grown_inode() {
    let mut m = mount();
    let mut file = vnode(&m, 12);
    let mut fp = FilePointer::new();
    file.seek(&mut fp, 20, Seek::FromStart).unwrap();
    assert_eq!(file.write(&mut m, &mut fp, b"++").unwrap(), 2);
    assert_eq!(file.attrs.size, 22);
    assert_eq!(m.get_inode(12).unwrap().attrs.size, 22);
}
