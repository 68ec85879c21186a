use vstd::prelude::*;

use crate::errors::KernelError;
use crate::misc::{read_le16, read_le32, write_le16, write_le32, spec_read_le16, spec_read_le32, spec_set_le16, spec_set_le32,
    spec_align_up, align_up, copy_range, bytes_equal};
use crate::fs::types::FilePointer;
use crate::block::{BlockStoreView, BlockNum, lemma_read_after_write};
use crate::fs::types::{FileAccess, DirEntry, FILE_TYPE_REGULAR, FILE_TYPE_DIRECTORY, FILE_TYPE_CHAR_DEVICE,
    FILE_TYPE_BLOCK_DEVICE, FILE_TYPE_FIFO, FILE_TYPE_SOCKET, FILE_TYPE_SYMBOLIC_LINK};
use super::inodes::{Ext2Vnode, Ext2Mount, EXT2_INODE_DIRECT_BLOCKS, INODE_NUM_LINKS};
use super::superblock::{Ext2SuperBlock, alloc_state, alloc_block_succeeds, alloc_block_ready, alloc_inode_ready, spec_alloc_item};
use super::blocks::{GetFileBlockOp, spec_file_block, tables_indexable, spec_file_block_alloc, file_alloc_apart};
use super::directory_proofs::{file_block_reads, lemma_file_block_frame};

verus! {

// The file types that a directory entry records.
pub const EXT2_FT_UNKNOWN: u8 = 0;
pub const EXT2_FT_REG_FILE: u8 = 1;
pub const EXT2_FT_DIR: u8 = 2;
pub const EXT2_FT_CHRDEV: u8 = 3;
pub const EXT2_FT_BLKDEV: u8 = 4;
pub const EXT2_FT_FIFO: u8 = 5;
pub const EXT2_FT_SOCK: u8 = 6;
pub const EXT2_FT_SYMLINK: u8 = 7;

/// The size of the fixed part of a directory entry: inode, entry length, name length and type.
pub const DIRENT_HEADER_SIZE: usize = 8;

// Offsets of the fields of a directory entry.
pub const DIRENT_INODE: usize = 0;
pub const DIRENT_ENTRY_LEN: usize = 4;
pub const DIRENT_NAME_LEN: usize = 6;
pub const DIRENT_FILE_TYPE: usize = 7;

/// The inode named by the entry at `off`.
pub open spec fn spec_entry_inode(bytes: Seq<u8>, off: int) -> u32 {
    spec_read_le32(bytes, off + DIRENT_INODE)
}

/// The length of the entry at `off`, which leads to the next entry.
pub open spec fn spec_entry_len(bytes: Seq<u8>, off: int) -> u16 {
    spec_read_le16(bytes, off + DIRENT_ENTRY_LEN)
}

/// The length of the name of the entry at `off`.
pub open spec fn spec_entry_name_len(bytes: Seq<u8>, off: int) -> u8 {
    bytes[off + DIRENT_NAME_LEN]
}

/// The header of the entry at `off` lies inside the block.
pub open spec fn spec_header_fits(bytes: Seq<u8>, off: int) -> bool {
    0 <= off && off + DIRENT_HEADER_SIZE <= bytes.len()
}

/// The header and the name of the entry at `off` lie inside the block.
pub open spec fn spec_entry_fits(bytes: Seq<u8>, off: int) -> bool {
    spec_header_fits(bytes, off) && off + DIRENT_HEADER_SIZE + spec_entry_name_len(bytes, off) <= bytes.len()
}

/// The name of the entry at `off`.
pub open spec fn spec_entry_name(bytes: Seq<u8>, off: int) -> Seq<u8> {
    bytes.subrange(off + DIRENT_HEADER_SIZE, off + DIRENT_HEADER_SIZE + spec_entry_name_len(bytes, off))
}

/// The smallest length that an entry with a name of `name_len` bytes can have.
pub open spec fn spec_min_entry_len(name_len: int) -> int {
    spec_align_up(name_len + DIRENT_HEADER_SIZE, 4)
}

/// The directory entry type recorded for a file of the given mode.
pub open spec fn spec_to_file_type(access: FileAccess) -> u8 {
    let t = access.spec_file_type();
    if t == FILE_TYPE_REGULAR { EXT2_FT_REG_FILE }
    else if t == FILE_TYPE_DIRECTORY { EXT2_FT_DIR }
    else if t == FILE_TYPE_CHAR_DEVICE { EXT2_FT_CHRDEV }
    else if t == FILE_TYPE_BLOCK_DEVICE { EXT2_FT_BLKDEV }
    else if t == FILE_TYPE_FIFO { EXT2_FT_FIFO }
    else if t == FILE_TYPE_SOCKET { EXT2_FT_SOCK }
    else if t == FILE_TYPE_SYMBOLIC_LINK { EXT2_FT_SYMLINK }
    else { EXT2_FT_UNKNOWN }
}

/// The directory entry type recorded for a file of the given mode.
pub fn to_file_type(access: FileAccess) -> (r: u8)
    ensures
        r == spec_to_file_type(access),
{
    let t = access.file_type();
    if t == FILE_TYPE_REGULAR { EXT2_FT_REG_FILE }
    else if t == FILE_TYPE_DIRECTORY { EXT2_FT_DIR }
    else if t == FILE_TYPE_CHAR_DEVICE { EXT2_FT_CHRDEV }
    else if t == FILE_TYPE_BLOCK_DEVICE { EXT2_FT_BLKDEV }
    else if t == FILE_TYPE_FIFO { EXT2_FT_FIFO }
    else if t == FILE_TYPE_SOCKET { EXT2_FT_SOCK }
    else if t == FILE_TYPE_SYMBOLIC_LINK { EXT2_FT_SYMLINK }
    else { EXT2_FT_UNKNOWN }
}

/// True when the header and the name of the entry at `off` lie inside the block.
pub fn entry_fits(bytes: &Vec<u8>, off: usize) -> (r: bool)
    ensures
        r == spec_entry_fits(bytes@, off as int),
{
    if bytes.len() < DIRENT_HEADER_SIZE || off > bytes.len() - DIRENT_HEADER_SIZE {
        return false;
    }
    let name_len = bytes[off + DIRENT_NAME_LEN] as usize;
    name_len <= bytes.len() - off - DIRENT_HEADER_SIZE
}

/// Reads the entry at `offset` of a directory block: whether its name is `filename`, its
/// length and its inode. An entry that runs past the block is `InvalidInode`.
pub fn compare_filename(bytes: &Vec<u8>, offset: usize, filename: &[u8]) -> (r: Result<(bool, usize, u32), KernelError>)
    ensures
        if spec_entry_fits(bytes@, offset as int) {
            r == Ok::<(bool, usize, u32), KernelError>((
                spec_entry_name(bytes@, offset as int) == filename@,
                spec_entry_len(bytes@, offset as int) as usize,
                spec_entry_inode(bytes@, offset as int),
            ))
        } else {
            r == Err::<(bool, usize, u32), KernelError>(KernelError::InvalidInode)
        },
{
    let blen = bytes.len();
    if !entry_fits(bytes, offset) {
        return Err(KernelError::InvalidInode);
    }
    let inode = read_le32(bytes.as_slice(), offset + DIRENT_INODE);
    let entry_len = read_le16(bytes.as_slice(), offset + DIRENT_ENTRY_LEN) as usize;
    let name_len = bytes[offset + DIRENT_NAME_LEN] as usize;
    let start = offset + DIRENT_HEADER_SIZE;
    let mut is_equal = name_len == filename.len();
    let mut i: usize = 0;
    while is_equal && i < name_len
        invariant
            start + name_len <= bytes@.len(),
            bytes@.len() == blen,
            0 <= i <= name_len,
            is_equal ==> name_len == filename@.len(),
            is_equal ==> forall|k: int| 0 <= k < i ==> bytes@[start + k] == filename@[k],
            !is_equal ==> spec_entry_name(bytes@, offset as int) != filename@,
            name_len == spec_entry_name_len(bytes@, offset as int),
            start == offset + DIRENT_HEADER_SIZE,
        decreases name_len - i,
    {
        if bytes[start + i] != filename[i] {
            is_equal = false;
            assert(spec_entry_name(bytes@, offset as int)[i as int] != filename@[i as int]);
        }
        i += 1;
    }
    if is_equal {
        assert(spec_entry_name(bytes@, offset as int) =~= filename@);
    }
    Ok((is_equal, entry_len, inode))
}

/// Scanning a directory block from `offset` for an entry whose unused tail can take a new
/// entry of `min_entry_len` bytes: the offset of that entry, none, or `InvalidInode` for an
/// entry that runs past the block or has no length.
pub open spec fn spec_scan_for_space(bytes: Seq<u8>, offset: int, min_entry_len: int) -> Result<Option<int>, KernelError>
    decreases bytes.len() - offset,
{
    if offset < 0 || offset >= bytes.len() {
        Ok(None)
    } else if !spec_header_fits(bytes, offset) {
        Err(KernelError::InvalidInode)
    } else {
        let len = spec_entry_len(bytes, offset) as int;
        if len > spec_min_entry_len(spec_entry_name_len(bytes, offset) as int) + min_entry_len {
            Ok(Some(offset))
        } else if len == 0 {
            Err(KernelError::InvalidInode)
        } else if offset + len >= bytes.len() {
            Ok(None)
        } else {
            spec_scan_for_space(bytes, offset + len, min_entry_len)
        }
    }
}

/// Finds, in one directory block, an entry that can be split to make room for a new entry.
pub fn scan_block_for_space(bytes: &Vec<u8>, min_entry_len: usize) -> (r: Result<Option<usize>, KernelError>)
    ensures
        match spec_scan_for_space(bytes@, 0, min_entry_len as int) {
            Ok(Some(off)) => r == Ok::<Option<usize>, KernelError>(Some(off as usize)),
            Ok(None) => r == Ok::<Option<usize>, KernelError>(None),
            Err(e) => r == Err::<Option<usize>, KernelError>(e),
        },
{
    let mut offset: usize = 0;
    while offset < bytes.len()
        invariant
            0 <= offset,
            spec_scan_for_space(bytes@, 0, min_entry_len as int) == spec_scan_for_space(bytes@, offset as int, min_entry_len as int),
        decreases bytes@.len() - offset,
    {
        if bytes.len() - offset < DIRENT_HEADER_SIZE {
            return Err(KernelError::InvalidInode);
        }
        let entry_len = read_le16(bytes.as_slice(), offset + DIRENT_ENTRY_LEN) as usize;
        let name_len = bytes[offset + DIRENT_NAME_LEN] as usize;
        let entry_min_len = align_up(name_len + DIRENT_HEADER_SIZE, 4);
        if entry_len > entry_min_len && entry_len - entry_min_len > min_entry_len {
            return Ok(Some(offset));
        }
        if entry_len == 0 {
            return Err(KernelError::InvalidInode);
        }
        if entry_len >= bytes.len() - offset {
            return Ok(None);
        }
        offset = offset + entry_len;
    }
    Ok(None)
}

/// The mount's block size suits the block tables and holds a directory entry's header.
pub open spec fn dirs_usable(mount: &Ext2Mount) -> bool {
    &&& mount.wf()
    &&& tables_indexable(mount.superblock.block_size as int)
    &&& mount.superblock.block_size >= DIRENT_HEADER_SIZE
}

/// Searching the blocks of a directory from block `znum` on for an entry that can be split:
/// the block and offset of that entry (with the block where the search stopped), or, where
/// no block has one, the number of the first block past the directory's blocks; or the error
/// that stopped the search.
pub open spec fn spec_find_space(store: BlockStoreView, blocks: Seq<u32>, bs: int, size: int, znum: int, min_entry_len: int)
    -> Result<(Option<(u32, int)>, int), KernelError>
    decreases size / bs + 1 - znum,
{
    if znum < 0 || znum > size / bs {
        Ok((None, znum))
    } else {
        match spec_file_block(store, blocks, bs, znum) {
            Err(e) => Err(e),
            Ok(None) => Ok((None, znum)),
            Ok(Some(b)) => match store.read(b as int) {
                Err(e) => Err(e),
                Ok(bytes) => match spec_scan_for_space(bytes, 0, min_entry_len) {
                    Err(e) => Err(e),
                    Ok(Some(off)) => Ok((Some((b, off)), znum)),
                    Ok(None) => spec_find_space(store, blocks, bs, size, znum + 1, min_entry_len),
                },
            },
        }
    }
}

/// A directory block's bytes `bytes` made into one empty entry spanning the block of `bs` bytes.
pub open spec fn spec_empty_entry_block(bytes: Seq<u8>, bs: usize) -> Seq<u8> {
    spec_set_le16(spec_set_le32(bytes, DIRENT_INODE as int, 0), DIRENT_ENTRY_LEN as int, bs as u16)
}

/// The bitmap block that an allocation of a block for the file of inode `inode` marks, or -1
/// where the allocation finds no block.
pub open spec fn alloc_bitmap_block(sb: Ext2SuperBlock, store: BlockStoreView, inode: u32) -> int {
    match spec_alloc_item(sb, store, (inode as int) / (sb.inodes_per_group as int), false) {
        Ok((g, _, _)) => sb.groups@[g].block_bitmap as int,
        Err(_) => -1,
    }
}

/// True when direct block `z` can be added to a directory whose blocks are `blocks`: where
/// the directory already points at a block there, when the device holds that block; else when
/// a block can be allocated.
pub open spec fn new_block_ready(sb: Ext2SuperBlock, store: BlockStoreView, blocks: Seq<u32>, inode: u32, z: int) -> bool {
    if blocks[z] != 0 {
        store.has_block(blocks[z] as int)
    } else {
        alloc_block_succeeds(sb, store, inode)
    }
}

/// Writing a directory's new block twice leaves the second write, and where that block is none
/// of the directory's block tables, where each block of the directory lies is unchanged.
proof fn lemma_append_write(store: BlockStoreView, blocks: Seq<u32>, b: u32, first: Seq<u8>, second: Seq<u8>, z: int)
    requires
        store.wf(),
        store.has_block(b as int),
        first.len() == store.block_size,
        second.len() == store.block_size,
        blocks.len() == 15,
    ensures
        store.set_block(b as int, first).set_block(b as int, second) == store.set_block(b as int, second),
        !file_block_reads(store, blocks, store.block_size as int, z, b) ==> spec_file_block(
            store.set_block(b as int, second), blocks, store.block_size as int, z)
            == spec_file_block(store, blocks, store.block_size as int, z),
        !file_block_reads(store, blocks, store.block_size as int, z, b) ==> spec_file_block(
            store.set_block(b as int, first), blocks, store.block_size as int, z)
            == spec_file_block(store, blocks, store.block_size as int, z),
{
    crate::block::lemma_set_block_twice(store, b as int, first, second);
    if !file_block_reads(store, blocks, store.block_size as int, z, b) {
        lemma_file_block_frame(store, b, second, blocks, store.block_size as int, z);
        lemma_file_block_frame(store, b, first, blocks, store.block_size as int, z);
    }
}

impl Ext2Vnode {
    /// Finds room for a directory entry of `min_entry_len` bytes: an entry whose unused tail is
    /// large enough, or else a new block added to the directory, which then holds one empty
    /// entry spanning the block.
    pub fn find_directory_space(&mut self, mount: &mut Ext2Mount, min_entry_len: usize)
        -> (r: Result<(BlockNum, usize), KernelError>)
        requires
            dirs_usable(old(mount)),
            old(self).wf(),
            old(self).attrs.size + old(mount).superblock.block_size <= usize::MAX,
        ensures
            dirs_usable(final(mount)),
            final(self).wf(),
            final(self).attrs.nlinks == old(self).attrs.nlinks,
            final(self).attrs.access == old(self).attrs.access,
            final(self).attrs.inode == old(self).attrs.inode,
            final(self).dirty == old(self).dirty,
            final(mount).superblock.block_size == old(mount).superblock.block_size,
            match spec_find_space(old(mount).store@, old(self).blocks@, old(mount).superblock.block_size as int,
                old(self).attrs.size as int, 0, min_entry_len as int) {
                Err(e) => r == Err::<(BlockNum, usize), KernelError>(e)
                    && final(mount).store@ == old(mount).store@ && *final(self) == *old(self),
                Ok((Some((b, off)), _)) => r == Ok::<(BlockNum, usize), KernelError>((b, off as usize))
                    && final(mount).store@ == old(mount).store@ && *final(self) == *old(self),
                Ok((None, z)) => {
                    &&& match r {
                        Ok((b, off)) => {
                            &&& off == 0
                            &&& final(self).attrs.size == old(self).attrs.size + old(mount).superblock.block_size
                            &&& final(mount).store@.read(b as int) matches Ok(t)
                            &&& spec_entry_inode(t, 0) == 0
                            &&& spec_entry_len(t, 0) == old(mount).superblock.block_size as u16
                        },
                        Err(_) => true,
                    }
                    &&& ({
                        let a = spec_file_block_alloc(old(mount).superblock, alloc_state(old(mount).superblock,
                            old(mount).store@), old(self).blocks@, old(self).attrs.inode, z);
                        &&& (r is Ok <==> (a.0 matches Ok(Some(b)) && a.1.store.has_block(b as int)))
                        &&& (r matches Ok((b, _)) ==> a.0 == Ok::<Option<u32>, KernelError>(Some(b))
                            && final(self).blocks@ == a.2 && final(mount).superblock.groups@ == a.1.groups
                            && final(mount).store@ == a.1.store.set_block(b as int,
                                spec_empty_entry_block(a.1.store.block(b as int), old(mount).superblock.block_size)))
                        &&& match r {
                            Err(e) => match a.0 {
                                Err(e2) => e == e2,
                                Ok(Some(b)) => !a.1.store.has_block(b as int) && e == KernelError::IOError,
                                Ok(None) => false,
                            },
                            Ok(_) => true,
                        }
                        &&& match r {
                            Ok((b, _)) => (file_alloc_apart(old(mount).superblock, alloc_state(old(mount).superblock,
                                old(mount).store@), old(self).blocks@, old(self).attrs.inode, z)
                                && !file_block_reads(a.1.store, a.2, old(mount).superblock.block_size as int, z, b))
                                ==> spec_file_block(final(mount).store@, final(self).blocks@,
                                    old(mount).superblock.block_size as int, z) == Ok::<Option<u32>, KernelError>(Some(b)),
                            Err(_) => true,
                        }
                    })
                    &&& 0 <= z < EXT2_INODE_DIRECT_BLOCKS ==> {
                        &&& (r is Ok <==> new_block_ready(old(mount).superblock, old(mount).store@, old(self).blocks@,
                            old(self).attrs.inode, z))
                        &&& (r matches Ok((b, _)) ==> final(self).blocks@ == old(self).blocks@.update(z, b)
                            && (old(self).blocks@[z] != 0 ==> b == old(self).blocks@[z])
                            && forall|x: int| x != b && x != alloc_bitmap_block(old(mount).superblock, old(mount).store@,
                                old(self).attrs.inode) ==> #[trigger] final(mount).store@.read(x) == old(mount).store@.read(x))
                    }
                },
            },
    {
        let block_size = mount.superblock.get_block_size();
        let ghost store0 = mount.store@;
        let ghost self0 = *self;
        let ghost bs = block_size as int;
        let ghost size = self.attrs.size as int;
        let mut znum: usize = 0;
        let mut done = false;
        while !done && znum <= self.attrs.size / block_size
            invariant
                dirs_usable(mount),
                *mount == *old(mount),
                mount.superblock.block_size == block_size,
                old(mount).superblock.block_size == block_size,
                store0 == old(mount).store@,
                self0 == *old(self),
                block_size as int == bs,
                mount.store@ == store0,
                *self == self0,
                self.wf(),
                self.attrs.size as int == size,
                0 <= znum <= size / bs + 1,
                !done ==> spec_find_space(store0, self0.blocks@, bs, size, 0, min_entry_len as int)
                    == spec_find_space(store0, self0.blocks@, bs, size, znum as int, min_entry_len as int),
                done ==> spec_find_space(store0, self0.blocks@, bs, size, 0, min_entry_len as int)
                    == Ok::<(Option<(u32, int)>, int), KernelError>((None, znum as int)),
            decreases size / bs + 1 - znum, if done { 0int } else { 1int },
        {
            match self.get_file_block_num(mount, znum, GetFileBlockOp::Lookup)? {
                None => {
                    done = true;
                },
                Some(block_num) => {
                    let bytes = mount.store.read_block(block_num)?;
                    match scan_block_for_space(&bytes, min_entry_len)? {
                        Some(off) => { return Ok((block_num, off)); },
                        None => {},
                    }
                    proof {
                        vstd::arithmetic::div_mod::lemma_div_is_ordered_by_denominator(size, 8, bs);
                    }
                    znum = znum + 1;
                },
            }
        }

        let ghost mount1 = *mount;
        let ghost self1 = *self;
        let found = self.get_file_block_num(mount, znum, GetFileBlockOp::Allocate)?;
        let block_num = found.unwrap();
        proof {
            if znum < EXT2_INODE_DIRECT_BLOCKS && self1.blocks@[znum as int] == 0 {
                let sb = mount1.superblock;
                if let Ok((g, n, bitmap)) = spec_alloc_item(sb, mount1.store@,
                    (self1.attrs.inode as int) / (sb.inodes_per_group as int), false) {
                    let marked = mount1.store@.set_block(sb.groups@[g].block_bitmap as int, bitmap);
                    if alloc_block_ready(sb, mount1.store@, self1.attrs.inode) && marked.has_block(n as u32 as int) {
                        let zeros = Seq::new(marked.block_size, |i: int| 0u8);
                        lemma_read_after_write(marked, n as u32 as int, n as u32 as int, zeros);
                        let bm = sb.groups@[g].block_bitmap as int;
                        crate::block::lemma_block_bounds(mount1.store@, bm);
                        assert forall|x: int| x != block_num && x != bm implies
                            #[trigger] mount.store@.read(x) == mount1.store@.read(x) by {
                            lemma_read_after_write(mount1.store@, bm, x, bitmap);
                            lemma_read_after_write(marked, n as u32 as int, x, zeros);
                        }
                    }
                }
            }
        }
        let ghost mount2 = *mount;
        self.attrs.size = self.attrs.size + block_size;
        let mut bytes = mount.store.read_block(block_num)?;
        proof { crate::block::lemma_block_bounds(mount.store@, block_num as int); }
        write_le32(&mut bytes, DIRENT_INODE, 0);
        write_le16(&mut bytes, DIRENT_ENTRY_LEN, block_size as u16);
        assert(spec_entry_inode(bytes@, 0) == 0);
        proof {
            lemma_read_after_write(mount.store@, block_num as int, block_num as int, bytes@);
            assert forall|x: int| x != block_num implies
                #[trigger] mount2.store@.set_block(block_num as int, bytes@).read(x) == mount2.store@.read(x) by {
                lemma_read_after_write(mount2.store@, block_num as int, x, bytes@);
            }
        }
        mount.store.write_block(block_num, &bytes)?;
        proof {
            let a = spec_file_block_alloc(mount1.superblock, alloc_state(mount1.superblock, mount1.store@),
                self1.blocks@, self1.attrs.inode, znum as int);
            if !file_block_reads(a.1.store, a.2, bs, znum as int, block_num) {
                lemma_file_block_frame(a.1.store, block_num, bytes@, a.2, bs, znum as int);
            }
        }
        Ok((block_num, 0))
    }
}

/// The directory entry at `position` of a directory: its inode, its name and its length; none
/// where the directory has no block there; `FileNotFound` past the end of the directory, and
/// `InvalidInode` for an entry that runs past its block.
pub open spec fn spec_next_dirent(store: BlockStoreView, blocks: Seq<u32>, bs: int, size: int, position: int)
    -> Result<Option<(u32, Seq<u8>, u16)>, KernelError>
{
    let znum = position / bs;
    if znum * bs > size {
        Err(KernelError::FileNotFound)
    } else {
        match spec_file_block(store, blocks, bs, znum) {
            Err(e) => Err(e),
            Ok(None) => Ok(None),
            Ok(Some(b)) => match store.read(b as int) {
                Err(e) => Err(e),
                Ok(bytes) => {
                    let off = position % bs;
                    if spec_entry_fits(bytes, off) {
                        Ok(Some((spec_entry_inode(bytes, off), spec_entry_name(bytes, off), spec_entry_len(bytes, off))))
                    } else {
                        Err(KernelError::InvalidInode)
                    }
                },
            },
        }
    }
}

/// An entry found by the scan has its header inside the block and a tail long enough.
pub proof fn lemma_scan_found(bytes: Seq<u8>, offset: int, min_entry_len: int)
    requires
        spec_scan_for_space(bytes, offset, min_entry_len) matches Ok(Some(_)),
    ensures
        spec_scan_for_space(bytes, offset, min_entry_len) matches Ok(Some(off))
            && spec_header_fits(bytes, off)
            && spec_entry_len(bytes, off) as int > spec_min_entry_len(spec_entry_name_len(bytes, off) as int) + min_entry_len,
    decreases bytes.len() - offset,
{
    if offset >= 0 && offset < bytes.len() && spec_header_fits(bytes, offset) {
        let len = spec_entry_len(bytes, offset) as int;
        if !(len > spec_min_entry_len(spec_entry_name_len(bytes, offset) as int) + min_entry_len)
            && len != 0 && offset + len < bytes.len() {
            lemma_scan_found(bytes, offset + len, min_entry_len);
        }
    }
}

/// An entry found by the search of a directory's blocks is one that the scan of its block
/// finds.
pub proof fn lemma_find_space_found(store: BlockStoreView, blocks: Seq<u32>, bs: int, size: int, znum: int, min_entry_len: int)
    requires
        spec_find_space(store, blocks, bs, size, znum, min_entry_len) matches Ok((Some(_), _)),
    ensures
        spec_find_space(store, blocks, bs, size, znum, min_entry_len) matches Ok((Some((b, off)), _))
            && store.read(b as int) matches Ok(bytes)
            && spec_scan_for_space(bytes, 0, min_entry_len) == Ok::<Option<int>, KernelError>(Some(off)),
    decreases size / bs + 1 - znum,
{
    if !(znum < 0 || znum > size / bs) {
        match spec_file_block(store, blocks, bs, znum) {
            Ok(Some(b)) => match store.read(b as int) {
                Ok(bytes) => match spec_scan_for_space(bytes, 0, min_entry_len) {
                    Ok(None) => { lemma_find_space_found(store, blocks, bs, size, znum + 1, min_entry_len); },
                    _ => {},
                },
                _ => {},
            },
            _ => {},
        }
    }
}

/// Where a new entry goes in the entry at `off`: after its name when the entry is in use,
/// else in its place.
pub open spec fn spec_new_entry_offset(bytes: Seq<u8>, off: int) -> int {
    if spec_entry_inode(bytes, off) != 0 {
        off + spec_min_entry_len(spec_entry_name_len(bytes, off) as int)
    } else {
        off
    }
}

/// Block `b` of the store holds, at offset `o`, an entry for `inode` whose name bytes are
/// `name` (its name length being that length modulo 256) and whose type is `file_type`.
pub open spec fn entry_added(store: BlockStoreView, b: u32, o: int, inode: u32, name: Seq<u8>, file_type: u8) -> bool {
    &&& store.read(b as int) matches Ok(t)
    &&& entry_in_bytes(t, o, inode, name, file_type)
}

/// The block's bytes `t` hold, at offset `o`, an entry for `inode` whose name bytes are `name`
/// (its name length being that length modulo 256) and whose type is `file_type`.
pub open spec fn entry_in_bytes(t: Seq<u8>, o: int, inode: u32, name: Seq<u8>, file_type: u8) -> bool {
    &&& spec_header_fits(t, o)
    &&& o + DIRENT_HEADER_SIZE + name.len() <= t.len()
    &&& spec_entry_inode(t, o) == inode
    &&& spec_entry_name_len(t, o) == (name.len() % 256) as u8
    &&& t[o + DIRENT_FILE_TYPE] == file_type
    &&& t.subrange(o + DIRENT_HEADER_SIZE, o + DIRENT_HEADER_SIZE + name.len()) == name
}

/// The block's bytes `t` are `bytes` after an entry for `inode` named `name` of type
/// `file_type` went into the entry at `off`: where that entry is in use, it is cut to its
/// smallest length and the new entry takes the rest of its length; otherwise the new entry
/// takes its place. Nothing else of the block changes.
pub open spec fn entry_written(bytes: Seq<u8>, t: Seq<u8>, off: int, inode: u32, name: Seq<u8>, file_type: u8) -> bool {
    let o = spec_new_entry_offset(bytes, off);
    let in_use = spec_entry_inode(bytes, off) != 0;
    &&& t.len() == bytes.len()
    &&& entry_in_bytes(t, o, inode, name, file_type)
    &&& in_use ==> spec_entry_len(t, off) == (o - off) as u16
        && spec_entry_len(t, o) == (spec_entry_len(bytes, off) - (o - off)) as u16
    &&& !in_use ==> spec_entry_len(t, o) == spec_entry_len(bytes, off)
    &&& forall|k: int| 0 <= k < bytes.len() && !(o <= k < o + DIRENT_HEADER_SIZE + name.len())
        && !(in_use && off + DIRENT_ENTRY_LEN <= k < off + DIRENT_ENTRY_LEN + 2) ==> #[trigger] t[k] == bytes[k]
}

/// Where a directory entry's fields lie, as ext2 lays them out from the entry's offset `o`: the
/// inode in bytes 0..4, the entry's length in 4..6 (both little-endian), the name's length in
/// byte 6, the file type in byte 7 and the name from byte 8; an entry added for `inode` named
/// `name` of type `file_type` holds exactly these.
pub proof fn lemma_dirent_fields_on_disk(t: Seq<u8>, o: int, inode: u32, name: Seq<u8>, file_type: u8)
    ensures
        spec_entry_inode(t, o) as int == t[o] + t[o + 1] * 256 + t[o + 2] * 65536 + t[o + 3] * 16777216,
        spec_entry_len(t, o) as int == t[o + 4] + t[o + 5] * 256,
        spec_entry_name_len(t, o) == t[o + 6],
        spec_entry_fits(t, o) ==> spec_entry_name(t, o) == t.subrange(o + 8, o + 8 + t[o + 6]),
        entry_in_bytes(t, o, inode, name, file_type) ==> {
            &&& t[o] + t[o + 1] * 256 + t[o + 2] * 65536 + t[o + 3] * 16777216 == inode as int
            &&& t[o + 6] as int == name.len() % 256
            &&& t[o + 7] == file_type
            &&& forall|k: int| 0 <= k < name.len() ==> #[trigger] t[o + 8 + k] == name[k]
        },
{
    if entry_in_bytes(t, o, inode, name, file_type) {
        assert forall|k: int| 0 <= k < name.len() implies #[trigger] t[o + 8 + k] == name[k] by {
            assert(t.subrange(o + 8, o + 8 + name.len())[k] == t[o + 8 + k]);
        }
    }
}

/// Writes into a directory block an entry for `inode` named `filename`, in the entry at
/// `found`: after that entry's name (shortening it) when it is in use, else in its place.
/// Returns where the new entry lies; `InvalidInode` when the entry or the name do not fit.
#[verifier::spinoff_prover]
#[verifier::rlimit(40)]
pub fn write_entry_into(bytes: &mut Vec<u8>, found: usize, access: FileAccess, filename: &[u8], inode: u32)
    -> (r: Result<usize, KernelError>)
    ensures
        final(bytes)@.len() == old(bytes)@.len(),
        match r {
            Ok(o) => o == spec_new_entry_offset(old(bytes)@, found as int)
                && spec_header_fits(old(bytes)@, found as int)
                && o + DIRENT_HEADER_SIZE + filename@.len() <= old(bytes)@.len()
                && entry_in_bytes(final(bytes)@, o as int, inode, filename@, spec_to_file_type(access))
                && entry_written(old(bytes)@, final(bytes)@, found as int, inode, filename@, spec_to_file_type(access)),
            Err(_) => true,
        },
        ({
            let old_bytes = old(bytes)@;
            &&& spec_header_fits(old_bytes, found as int)
            &&& (spec_entry_inode(old_bytes, found as int) != 0 ==>
                spec_entry_len(old_bytes, found as int) >= spec_min_entry_len(spec_entry_name_len(old_bytes, found as int) as int))
        }) ==> (r is Ok <==> spec_new_entry_offset(old(bytes)@, found as int) + DIRENT_HEADER_SIZE + filename@.len()
            <= old(bytes)@.len()),
{
        let name_len = filename.len();
        let mut offset = found;
        let blen = bytes.len();
        let ghost orig = bytes@;
        if blen < DIRENT_HEADER_SIZE || offset > blen - DIRENT_HEADER_SIZE {
            return Err(KernelError::InvalidInode);
        }

        // Split the entry if it is in use
        if read_le32(bytes.as_slice(), offset + DIRENT_INODE) != 0 {
            let entry_min_len = align_up(bytes[offset + DIRENT_NAME_LEN] as usize + DIRENT_HEADER_SIZE, 4);
            let entry_len = read_le16(bytes.as_slice(), offset + DIRENT_ENTRY_LEN);
            if (entry_len as usize) < entry_min_len || entry_min_len > blen - DIRENT_HEADER_SIZE - offset {
                return Err(KernelError::InvalidInode);
            }
            write_le16(bytes, offset + DIRENT_ENTRY_LEN, entry_min_len as u16);
            let ghost after_cut = bytes@;
            offset = offset + entry_min_len;
            write_le16(bytes, offset + DIRENT_ENTRY_LEN, entry_len - entry_min_len as u16);
            proof {
                assert(bytes@[found + 4] == after_cut[found + 4]);
                assert(bytes@[found + 5] == after_cut[found + 5]);
                assert(spec_read_le16(bytes@, found + DIRENT_ENTRY_LEN) == entry_min_len as u16);
                assert forall|k: int| 0 <= k < blen && !(found + 4 <= k < found + 6) && !(offset + 4 <= k < offset + 6)
                    implies #[trigger] bytes@[k] == orig[k] by {
                    assert(bytes@[k] == after_cut[k]);
                }
            }
        }

        if name_len > blen - DIRENT_HEADER_SIZE - offset {
            return Err(KernelError::InvalidInode);
        }
        let ghost split = bytes@;
        let ghost in_use = spec_entry_inode(orig, found as int) != 0;
        assert(in_use ==> spec_read_le16(split, found + DIRENT_ENTRY_LEN) == (offset - found) as u16
            && spec_read_le16(split, offset + DIRENT_ENTRY_LEN) == (spec_entry_len(orig, found as int) - (offset - found)) as u16);
        assert(forall|k: int| 0 <= k < blen && !(in_use && found + 4 <= k < found + 6) && !(offset + 4 <= k < offset + 6)
            ==> #[trigger] split[k] == orig[k]);
        write_le32(bytes, offset + DIRENT_INODE, inode);
        let ghost with_inode = bytes@;
        bytes.set(offset + DIRENT_NAME_LEN, (name_len % 256) as u8);
        bytes.set(offset + DIRENT_FILE_TYPE, to_file_type(access));
        let ghost header = bytes@;
        assert(spec_read_le32(header, offset as int) == spec_read_le32(with_inode, offset as int)) by {
            assert(header[offset as int] == with_inode[offset as int]);
            assert(header[offset + 1] == with_inode[offset + 1]);
            assert(header[offset + 2] == with_inode[offset + 2]);
            assert(header[offset + 3] == with_inode[offset + 3]);
        }
        let start = offset + DIRENT_HEADER_SIZE;
        let mut i: usize = 0;
        while i < name_len
            invariant
                bytes@.len() == blen,
                start + name_len <= blen,
                start == offset + DIRENT_HEADER_SIZE,
                name_len == filename@.len(),
                0 <= i <= name_len,
                forall|k: int| 0 <= k < start ==> bytes@[k] == header[k],
                forall|k: int| start + i <= k < blen ==> bytes@[k] == header[k],
                forall|k: int| 0 <= k < i ==> bytes@[start + k] == filename@[k],
            decreases name_len - i,
        {
            bytes.set(start + i, filename[i]);
            i += 1;
        }
        assert(bytes@.subrange(start as int, start + name_len) =~= filename@);
        assert(spec_read_le32(bytes@, offset as int) == spec_read_le32(header, offset as int)) by {
            assert(bytes@[offset as int] == header[offset as int]);
            assert(bytes@[offset + 1] == header[offset + 1]);
            assert(bytes@[offset + 2] == header[offset + 2]);
            assert(bytes@[offset + 3] == header[offset + 3]);
        }
        assert(bytes@[offset + DIRENT_NAME_LEN] == header[offset + DIRENT_NAME_LEN]);
        assert(bytes@[offset + DIRENT_FILE_TYPE] == header[offset + DIRENT_FILE_TYPE]);
        assert(spec_read_le16(bytes@, offset + DIRENT_ENTRY_LEN) == spec_read_le16(split, offset + DIRENT_ENTRY_LEN)) by {
            assert(with_inode[offset + 4] == split[offset + 4]);
            assert(with_inode[offset + 5] == split[offset + 5]);
            assert(bytes@[offset + 4] == header[offset + 4]);
            assert(bytes@[offset + 5] == header[offset + 5]);
        }
        assert(spec_read_le16(bytes@, found + DIRENT_ENTRY_LEN) == spec_read_le16(split, found + DIRENT_ENTRY_LEN)) by {
            assert(with_inode[found + 4] == split[found + 4]);
            assert(with_inode[found + 5] == split[found + 5]);
            assert(bytes@[found + 4] == header[found + 4]);
            assert(bytes@[found + 5] == header[found + 5]);
        }
        assert forall|k: int| 0 <= k < blen && !(offset <= k < offset + DIRENT_HEADER_SIZE + name_len)
            && !(in_use && found + DIRENT_ENTRY_LEN <= k < found + DIRENT_ENTRY_LEN + 2)
            implies #[trigger] bytes@[k] == orig[k] by {
            assert(header[k] == with_inode[k]);
            assert(with_inode[k] == split[k]);
            assert(split[k] == orig[k]);
        }
        Ok(offset)
}

impl Ext2Vnode {
    /// Reads the directory entry at `position` into `dirent` and returns its length, which
    /// added to `position` gives the next entry.
    pub fn read_next_dirent_from_vnode(&mut self, mount: &mut Ext2Mount, dirent: &mut DirEntry, position: usize)
        -> (r: Result<Option<usize>, KernelError>)
        requires
            dirs_usable(old(mount)),
            old(self).wf(),
        ensures
            *final(mount) == *old(mount),
            *final(self) == *old(self),
            match spec_next_dirent(old(mount).store@, old(self).blocks@, old(mount).superblock.block_size as int,
                old(self).attrs.size as int, position as int) {
                Err(e) => r == Err::<Option<usize>, KernelError>(e)
                    && final(dirent).inode == old(dirent).inode && final(dirent).name@ == old(dirent).name@,
                Ok(None) => r == Ok::<Option<usize>, KernelError>(None)
                    && final(dirent).inode == old(dirent).inode && final(dirent).name@ == old(dirent).name@,
                Ok(Some((inode, name, len))) => r == Ok::<Option<usize>, KernelError>(Some(len as usize))
                    && final(dirent).inode == inode && final(dirent).name@ == name,
            },
    {
        let block_size = mount.superblock.get_block_size();
        let znum = position / block_size;
        let offset = position % block_size;
        proof { vstd::arithmetic::div_mod::lemma_fundamental_div_mod(position as int, block_size as int); }
        let base = position - offset;
        assert(base as int == znum * block_size) by (nonlinear_arith)
            requires base == position - offset, position == block_size * znum + offset;
        if base > self.attrs.size {
            return Err(KernelError::FileNotFound);
        }
        let block_num = match self.get_file_block_num(mount, znum, GetFileBlockOp::Lookup)? {
            None => { return Ok(None); },
            Some(num) => num,
        };
        let bytes = mount.store.read_block(block_num)?;
        if !entry_fits(&bytes, offset) {
            return Err(KernelError::InvalidInode);
        }
        let entry_len = read_le16(bytes.as_slice(), offset + DIRENT_ENTRY_LEN) as usize;
        let name_len = bytes[offset + DIRENT_NAME_LEN] as usize;
        dirent.inode = read_le32(bytes.as_slice(), offset + DIRENT_INODE);
        let name = copy_range(bytes.as_slice(), offset + DIRENT_HEADER_SIZE, offset + DIRENT_HEADER_SIZE + name_len);
        dirent.copy_into(name.as_slice());
        Ok(Some(entry_len))
    }

    /// Adds an entry for `inode`, named `filename`, to the directory: in the unused tail of an
    /// entry, which is shortened to its name, or in a new block.
    #[verifier::spinoff_prover]
    #[verifier::rlimit(100)]
    pub fn add_directory_to_vnode(&mut self, mount: &mut Ext2Mount, access: FileAccess, filename: &[u8], inode: u32)
        -> (r: Result<(), KernelError>)
        requires
            dirs_usable(old(mount)),
            old(self).wf(),
            old(self).attrs.size + old(mount).superblock.block_size <= usize::MAX,
            filename@.len() + DIRENT_HEADER_SIZE + 3 <= usize::MAX,
        ensures
            dirs_usable(final(mount)),
            final(self).wf(),
            final(self).attrs.nlinks == old(self).attrs.nlinks,
            final(self).attrs.access == old(self).attrs.access,
            final(self).attrs.inode == old(self).attrs.inode,
            final(self).dirty == old(self).dirty,
            final(mount).superblock.block_size == old(mount).superblock.block_size,
            r is Ok ==> exists|b: u32, o: int|
                entry_added(final(mount).store@, b, o, inode, filename@, spec_to_file_type(access)),
            filename@.len() + DIRENT_HEADER_SIZE > old(mount).superblock.block_size ==> r is Err,
            match spec_find_space(old(mount).store@, old(self).blocks@, old(mount).superblock.block_size as int,
                old(self).attrs.size as int, 0, spec_min_entry_len(filename@.len() as int)) {
                Ok((Some((b, off)), _)) => {
                    let o = spec_new_entry_offset(old(mount).store@.block(b as int), off);
                    &&& (r is Ok <==> o + DIRENT_HEADER_SIZE + filename@.len() <= old(mount).superblock.block_size)
                    &&& (r is Ok ==> entry_added(final(mount).store@, b, o, inode, filename@, spec_to_file_type(access)))
                    &&& (r is Ok ==> entry_written(old(mount).store@.block(b as int), final(mount).store@.block(b as int),
                        off, inode, filename@, spec_to_file_type(access)))
                    &&& *final(self) == *old(self)
                    &&& final(mount).store@ == old(mount).store@.set_block(b as int, final(mount).store@.block(b as int))
                },
                Ok((None, z)) => {
                    &&& r is Ok ==> final(self).attrs.size == old(self).attrs.size + old(mount).superblock.block_size
                    &&& ({
                        let a = spec_file_block_alloc(old(mount).superblock, alloc_state(old(mount).superblock,
                            old(mount).store@), old(self).blocks@, old(self).attrs.inode, z);
                        &&& (r is Ok <==> (a.0 matches Ok(Some(b)) && a.1.store.has_block(b as int)
                            && DIRENT_HEADER_SIZE + filename@.len() <= old(mount).superblock.block_size))
                        &&& (r is Ok ==> (a.0 matches Ok(Some(b)) && final(self).blocks@ == a.2
                            && final(mount).superblock.groups@ == a.1.groups
                            && final(mount).store@ == a.1.store.set_block(b as int, final(mount).store@.block(b as int))
                            && entry_added(final(mount).store@, b, 0, inode, filename@, spec_to_file_type(access))))
                        &&& match a.0 {
                            Ok(Some(b)) => (r is Ok && file_alloc_apart(old(mount).superblock, alloc_state(
                                old(mount).superblock, old(mount).store@), old(self).blocks@, old(self).attrs.inode, z)
                                && !file_block_reads(a.1.store, a.2, old(mount).superblock.block_size as int, z, b))
                                ==> spec_file_block(final(mount).store@, final(self).blocks@,
                                    old(mount).superblock.block_size as int, z) == Ok::<Option<u32>, KernelError>(Some(b)),
                            _ => true,
                        }
                    })
                    &&& 0 <= z < EXT2_INODE_DIRECT_BLOCKS ==> {
                        &&& (r is Ok <==> new_block_ready(old(mount).superblock, old(mount).store@, old(self).blocks@,
                                old(self).attrs.inode, z)
                            && DIRENT_HEADER_SIZE + filename@.len() <= old(mount).superblock.block_size)
                        &&& (r is Ok ==> final(self).blocks@ == old(self).blocks@.update(z, final(self).blocks@[z])
                            && (old(self).blocks@[z] != 0 ==> final(self).blocks@[z] == old(self).blocks@[z])
                            && entry_added(final(mount).store@, final(self).blocks@[z], 0, inode, filename@,
                                spec_to_file_type(access))
                            && forall|x: int| x != final(self).blocks@[z] && x != alloc_bitmap_block(old(mount).superblock,
                                old(mount).store@, old(self).attrs.inode)
                                ==> #[trigger] final(mount).store@.read(x) == old(mount).store@.read(x))
                    }
                },
                Err(e) => r == Err::<(), KernelError>(e) && final(mount).store@ == old(mount).store@
                    && *final(self) == *old(self),
            },
    {
        let name_len = filename.len();
        let min_entry_len = align_up(name_len + DIRENT_HEADER_SIZE, 4);
        let ghost store0 = mount.store@;
        let ghost search = spec_find_space(mount.store@, self.blocks@, mount.superblock.block_size as int,
            self.attrs.size as int, 0, spec_min_entry_len(filename@.len() as int));
        proof {
            match search {
                Ok((Some((b, off)), _)) => {
                    lemma_find_space_found(mount.store@, self.blocks@, mount.superblock.block_size as int,
                        self.attrs.size as int, 0, spec_min_entry_len(filename@.len() as int));
                    lemma_scan_found(mount.store@.block(b as int), 0, spec_min_entry_len(filename@.len() as int));
                },
                _ => {},
            }
        }
        let (block_num, found) = self.find_directory_space(mount, min_entry_len)?;
        let mut bytes = mount.store.read_block(block_num)?;
        proof {
            crate::block::lemma_block_bounds(mount.store@, block_num as int);
            crate::block::lemma_set_block_unchanged(mount.store@, block_num as int);
        }
        let offset = write_entry_into(&mut bytes, found, access, filename, inode)?;
        proof {
            lemma_read_after_write(mount.store@, block_num as int, block_num as int, bytes@);
            if let Ok((None, z)) = search {
                let a = spec_file_block_alloc(old(mount).superblock, alloc_state(old(mount).superblock,
                    old(mount).store@), old(self).blocks@, old(self).attrs.inode, z);
                crate::block::lemma_block_bounds(a.1.store, block_num as int);
                lemma_append_write(a.1.store, a.2, block_num, spec_empty_entry_block(a.1.store.block(block_num as int),
                    mount.superblock.block_size), bytes@, z);
            }
            assert forall|x: int| x != block_num implies
                #[trigger] mount.store@.set_block(block_num as int, bytes@).read(x) == mount.store@.read(x) by {
                lemma_read_after_write(mount.store@, block_num as int, x, bytes@);
            }
        }
        mount.store.write_block(block_num, &bytes)?;
        assert(entry_added(mount.store@, block_num, offset as int, inode, filename@, spec_to_file_type(access)));
        Ok(())
    }
}

/// Searching a directory block from `position` for the entry named `name`, `previous` being
/// the position of the entry before: the position of the entry before it, the length that
/// entry takes when it absorbs the one found, and the inode of the one found; none; or
/// `InvalidInode` where the entry found is the first of its block, the merged length does not
/// fit, or an entry runs past the block or has no length.
pub open spec fn spec_remove_in_block(bytes: Seq<u8>, position: int, previous: Option<int>, name: Seq<u8>)
    -> Result<Option<(int, u16, u32)>, KernelError>
    decreases bytes.len() - position,
{
    if position < 0 || position >= bytes.len() {
        Ok(None)
    } else if !spec_entry_fits(bytes, position) {
        Err(KernelError::InvalidInode)
    } else {
        let len = spec_entry_len(bytes, position) as int;
        if spec_entry_name(bytes, position) == name {
            match previous {
                None => Err(KernelError::InvalidInode),
                Some(p) => {
                    let merged = spec_entry_len(bytes, p) as int + len;
                    if merged > u16::MAX {
                        Err(KernelError::InvalidInode)
                    } else {
                        Ok(Some((p, merged as u16, spec_entry_inode(bytes, position))))
                    }
                },
            }
        } else if len == 0 {
            Err(KernelError::InvalidInode)
        } else if position + len >= bytes.len() {
            Ok(None)
        } else {
            spec_remove_in_block(bytes, position + len, Some(position), name)
        }
    }
}

/// Finds the entry named `filename` in one directory block, for its removal.
pub fn remove_in_block(bytes: &Vec<u8>, filename: &[u8]) -> (r: Result<Option<(usize, u16, u32)>, KernelError>)
    ensures
        match spec_remove_in_block(bytes@, 0, None, filename@) {
            Err(e) => r == Err::<Option<(usize, u16, u32)>, KernelError>(e),
            Ok(None) => r == Ok::<Option<(usize, u16, u32)>, KernelError>(None),
            Ok(Some((p, len, inode))) => r == Ok::<Option<(usize, u16, u32)>, KernelError>(Some((p as usize, len, inode)))
                && spec_header_fits(bytes@, p),
        },
        r matches Ok(Some((p, _, _))) ==> spec_header_fits(bytes@, p as int),
{
    let blen = bytes.len();
    let mut position: usize = 0;
    let mut previous: Option<usize> = None;
    while position < blen
        invariant
            blen == bytes@.len(),
            spec_remove_in_block(bytes@, 0, None, filename@) == spec_remove_in_block(bytes@,
                position as int, match previous { Some(p) => Some(p as int), None => None }, filename@),
            previous matches Some(p) ==> spec_header_fits(bytes@, p as int),
        decreases blen - position,
    {
        let (is_equal, entry_len, inode) = compare_filename(bytes, position, filename)?;
        if is_equal {
            match previous {
                None => { return Err(KernelError::InvalidInode); },
                Some(p) => {
                    let previous_len = read_le16(bytes.as_slice(), p + DIRENT_ENTRY_LEN) as usize;
                    if previous_len + entry_len > 0xffff {
                        return Err(KernelError::InvalidInode);
                    }
                    return Ok(Some((p, (previous_len + entry_len) as u16, inode)));
                },
            }
        }
        if entry_len == 0 {
            return Err(KernelError::InvalidInode);
        }
        if entry_len >= blen - position {
            return Ok(None);
        }
        previous = Some(position);
        position = position + entry_len;
    }
    Ok(None)
}

/// Searching the blocks of a directory from block `znum` on for the entry named `name`: the
/// block, the position of the entry before it, that entry's merged length and the inode
/// found; or the error that stopped the search, `FileNotFound` where no block has the name.
pub open spec fn spec_remove_entry(store: BlockStoreView, blocks: Seq<u32>, bs: int, size: int, znum: int, name: Seq<u8>)
    -> Result<(u32, int, u16, u32), KernelError>
    decreases size / bs + 1 - znum,
{
    if znum < 0 || znum > size / bs {
        Err(KernelError::FileNotFound)
    } else {
        match spec_file_block(store, blocks, bs, znum) {
            Err(e) => Err(e),
            Ok(None) => Err(KernelError::FileNotFound),
            Ok(Some(b)) => match store.read(b as int) {
                Err(e) => Err(e),
                Ok(bytes) => match spec_remove_in_block(bytes, 0, None, name) {
                    Err(e) => Err(e),
                    Ok(Some((p, len, inode))) => Ok((b, p, len, inode)),
                    Ok(None) => spec_remove_entry(store, blocks, bs, size, znum + 1, name),
                },
            },
        }
    }
}

impl Ext2Vnode {
    /// Removes the entry named `filename` from the directory by adding its length to the entry
    /// before it, and returns the inode it named.
    pub fn remove_directory_entry(&mut self, mount: &mut Ext2Mount, filename: &[u8]) -> (r: Result<u32, KernelError>)
        requires
            dirs_usable(old(mount)),
            old(self).wf(),
        ensures
            dirs_usable(final(mount)),
            *final(self) == *old(self),
            final(mount).superblock == old(mount).superblock,
            match spec_remove_entry(old(mount).store@, old(self).blocks@, old(mount).superblock.block_size as int,
                old(self).attrs.size as int, 0, filename@) {
                Err(e) => r == Err::<u32, KernelError>(e) && final(mount).store@ == old(mount).store@,
                Ok((b, p, len, inode)) => r == Ok::<u32, KernelError>(inode)
                    && final(mount).store@ == old(mount).store@.set_block(b as int,
                        spec_set_le16(old(mount).store@.block(b as int), p + DIRENT_ENTRY_LEN, len)),
            },
    {
        let block_size = mount.superblock.get_block_size();
        let ghost store0 = mount.store@;
        let ghost self0 = *self;
        let ghost bs = block_size as int;
        let ghost size = self.attrs.size as int;
        let mut znum: usize = 0;
        while znum <= self.attrs.size / block_size
            invariant
                dirs_usable(mount),
                mount.superblock.block_size == block_size,
                mount.superblock == old(mount).superblock,
                store0 == old(mount).store@,
                self0 == *old(self),
                block_size as int == bs,
                mount.store@ == store0,
                *self == self0,
                self.wf(),
                self.attrs.size as int == size,
                0 <= znum <= size / bs + 1,
                spec_remove_entry(store0, self0.blocks@, bs, size, 0, filename@)
                    == spec_remove_entry(store0, self0.blocks@, bs, size, znum as int, filename@),
            decreases size / bs + 1 - znum,
        {
            let block_num = match self.get_file_block_num(mount, znum, GetFileBlockOp::Lookup)? {
                None => { return Err(KernelError::FileNotFound); },
                Some(num) => num,
            };
            let bytes = mount.store.read_block(block_num)?;
            match remove_in_block(&bytes, filename)? {
                Some((previous, merged_len, inode)) => {
                    let mut updated = bytes;
                    proof { crate::block::lemma_block_bounds(mount.store@, block_num as int); }
                    write_le16(&mut updated, previous + DIRENT_ENTRY_LEN, merged_len);
                    mount.store.write_block(block_num, &updated)?;
                    return Ok(inode);
                },
                None => {},
            }
            proof {
                vstd::arithmetic::div_mod::lemma_div_is_ordered_by_denominator(size, 8, bs);
            }
            znum = znum + 1;
        }
        Err(KernelError::FileNotFound)
    }
}

/// Looking up `name` among the entries of a directory from `position` on: the inode of the
/// first entry with that name; `FileNotFound` at the end of the directory or where a block is
/// missing; the error met on the way; `InvalidInode` for an entry without length.
pub open spec fn spec_lookup(store: BlockStoreView, blocks: Seq<u32>, bs: int, size: int, position: int, name: Seq<u8>)
    -> Result<u32, KernelError>
    decreases size - position,
{
    if position >= size {
        Err(KernelError::FileNotFound)
    } else {
        match spec_next_dirent(store, blocks, bs, size, position) {
            Err(e) => Err(e),
            Ok(None) => Err(KernelError::FileNotFound),
            Ok(Some((inode, entry_name, len))) => {
                if entry_name == name {
                    Ok(inode)
                } else if len == 0 {
                    Err(KernelError::InvalidInode)
                } else if position + len >= size {
                    Err(KernelError::FileNotFound)
                } else {
                    spec_lookup(store, blocks, bs, size, position + len, name)
                }
            },
        }
    }
}

impl Ext2Vnode {
    /// Finds the inode named `filename` in the directory.
    pub fn lookup(&mut self, mount: &mut Ext2Mount, filename: &[u8]) -> (r: Result<u32, KernelError>)
        requires
            dirs_usable(old(mount)),
            old(self).wf(),
            old(self).attrs.size + 0x1_0000 <= usize::MAX,
        ensures
            *final(mount) == *old(mount),
            *final(self) == *old(self),
            if !old(self).attrs.access.spec_is_dir() {
                r == Err::<u32, KernelError>(KernelError::NotADirectory)
            } else {
                r == spec_lookup(old(mount).store@, old(self).blocks@, old(mount).superblock.block_size as int,
                    old(self).attrs.size as int, 0, filename@)
            },
    {
        if !self.attrs.access.is_dir() {
            return Err(KernelError::NotADirectory);
        }
        let ghost store0 = mount.store@;
        let ghost blocks0 = self.blocks@;
        let ghost bs = mount.superblock.block_size as int;
        let ghost size = self.attrs.size as int;
        let mut position: usize = 0;
        let mut dirent = DirEntry::new_empty();
        while position < self.attrs.size
            invariant
                dirs_usable(mount),
                *mount == *old(mount),
                *self == *old(self),
                self.wf(),
                store0 == mount.store@,
                blocks0 == self.blocks@,
                bs == mount.superblock.block_size as int,
                size == self.attrs.size as int,
                size + 0x1_0000 <= usize::MAX,
                self.attrs.access.spec_is_dir(),
                spec_lookup(store0, blocks0, bs, size, 0, filename@) == spec_lookup(store0, blocks0, bs, size, position as int, filename@),
            decreases size - position,
        {
            let nbytes = match self.read_next_dirent_from_vnode(mount, &mut dirent, position)? {
                None => { return Err(KernelError::FileNotFound); },
                Some(n) => n,
            };
            if bytes_equal(dirent.name.as_slice(), filename) {
                return Ok(dirent.inode);
            }
            if nbytes == 0 {
                return Err(KernelError::InvalidInode);
            }
            if nbytes >= self.attrs.size - position {
                return Err(KernelError::FileNotFound);
            }
            position = position + nbytes;
        }
        Err(KernelError::FileNotFound)
    }

    /// Reads the directory entry at the file pointer and moves the pointer to the next one;
    /// none at the end of the directory.
    pub fn readdir(&mut self, mount: &mut Ext2Mount, file: &mut FilePointer) -> (r: Result<Option<DirEntry>, KernelError>)
        requires
            dirs_usable(old(mount)),
            old(self).wf(),
            old(self).attrs.size + 0x1_0000 <= usize::MAX,
        ensures
            *final(mount) == *old(mount),
            *final(self) == *old(self),
            if !old(self).attrs.access.spec_is_dir() {
                r matches Err(e) && e == KernelError::NotADirectory && final(file).position == old(file).position
            } else if old(file).position >= old(self).attrs.size {
                r matches Ok(None) && final(file).position == old(file).position
            } else {
                match spec_next_dirent(old(mount).store@, old(self).blocks@, old(mount).superblock.block_size as int,
                    old(self).attrs.size as int, old(file).position as int) {
                    Err(e) => r matches Err(e2) && e2 == e && final(file).position == old(file).position,
                    Ok(None) => r matches Ok(None) && final(file).position == old(file).position,
                    Ok(Some((inode, name, len))) => r matches Ok(Some(d)) && d.inode == inode && d.name@ == name
                        && final(file).position == old(file).position + len,
                }
            },
    {
        if !self.attrs.access.is_dir() {
            return Err(KernelError::NotADirectory);
        }
        if file.position >= self.attrs.size {
            return Ok(None);
        }
        let mut dirent = DirEntry::new_empty();
        match self.read_next_dirent_from_vnode(mount, &mut dirent, file.position)? {
            None => Ok(None),
            Some(offset) => {
                file.position = file.position + offset;
                Ok(Some(dirent))
            },
        }
    }
}

/// Where reads of blocks differ only outside the direct blocks of a directory, its search for
/// room finds the same.
proof fn lemma_find_space_frame(store0: BlockStoreView, store1: BlockStoreView, blocks: Seq<u32>, bs: int, size: int,
    znum: int, ml: int)
    requires
        bs > 0,
        size / bs < EXT2_INODE_DIRECT_BLOCKS,
        0 <= znum,
        forall|z: int| 0 <= z <= size / bs && #[trigger] blocks[z] != 0 ==> store1.read(blocks[z] as int) == store0.read(blocks[z] as int),
    ensures
        spec_find_space(store1, blocks, bs, size, znum, ml) == spec_find_space(store0, blocks, bs, size, znum, ml),
    decreases size / bs + 1 - znum,
{
    if znum <= size / bs {
        assert(spec_file_block(store1, blocks, bs, znum) == spec_file_block(store0, blocks, bs, znum));
        lemma_find_space_frame(store0, store1, blocks, bs, size, znum + 1, ml);
    }
}

/// A file can be created in directory `dir` with its blocks untouched by the inode allocation:
/// the allocation succeeds, the directory has direct blocks only, and none of them is the
/// inode bitmap block that the allocation marks or the block of the inode table it writes.
pub open spec fn allocates_apart(m: Ext2Mount, dir: Ext2Vnode) -> bool {
    let bs = m.superblock.block_size as int;
    let size = dir.attrs.size as int;
    &&& alloc_inode_ready(m.superblock, m.store@, dir.attrs.inode)
    &&& size / bs < EXT2_INODE_DIRECT_BLOCKS
    &&& match spec_alloc_item(m.superblock, m.store@, (dir.attrs.inode as int) / (m.superblock.inodes_per_group as int), true) {
        Err(_) => false,
        Ok((g, n, bitmap)) => {
            let num = (n + 1) as u32;
            let bitmap_block = m.superblock.groups@[g].inode_bitmap;
            let marked = m.store@.set_block(bitmap_block as int, bitmap);
            &&& num != 0
            &&& m.inode_in_block(num)
            &&& match m.superblock.spec_inode_entry_location(num) {
                Err(_) => false,
                Ok((block, _)) => marked.has_block(block) && forall|z: int| 0 <= z <= size / bs
                    && #[trigger] dir.blocks@[z] != 0 ==> dir.blocks@[z] != bitmap_block && dir.blocks@[z] != block,
            }
        },
    }
}

impl Ext2Vnode {
    /// Creates a file named `filename` in the directory: allocates an inode with the given
    /// mode and owner, near the directory's, and adds an entry for it.
    pub fn create(&mut self, mount: &mut Ext2Mount, filename: &[u8], access: FileAccess, uid: u16, gid: u16)
        -> (r: Result<Ext2Vnode, KernelError>)
        requires
            dirs_usable(old(mount)),
            old(self).wf(),
            old(self).attrs.size + old(mount).superblock.block_size <= usize::MAX,
            filename@.len() + DIRENT_HEADER_SIZE + 3 <= usize::MAX,
        ensures
            dirs_usable(final(mount)),
            final(self).wf(),
            !old(self).attrs.access.spec_is_dir() ==> (r matches Err(e) && e == KernelError::OperationNotPermitted
                && *final(mount) == *old(mount) && *final(self) == *old(self)),
            old(self).attrs.access.spec_is_dir() && !alloc_inode_ready(old(mount).superblock, old(mount).store@,
                old(self).attrs.inode) ==> (r matches Err(e) && e == KernelError::OutOfDiskSpace
                && final(mount).store@ == old(mount).store@ && *final(self) == *old(self)),
            old(self).attrs.access.spec_is_dir() && alloc_inode_ready(old(mount).superblock, old(mount).store@,
                old(self).attrs.inode) ==> match spec_alloc_item(old(mount).superblock, old(mount).store@,
                    (old(self).attrs.inode as int) / (old(mount).superblock.inodes_per_group as int), true) {
                Err(e) => r matches Err(e2) && e2 == e && final(mount).store@ == old(mount).store@
                    && *final(self) == *old(self),
                Ok((_, n, _)) => r matches Ok(v) ==> v.attrs.inode == (n + 1) as u32,
            },
            old(self).attrs.access.spec_is_dir() && allocates_apart(*old(mount), *old(self)) ==> match spec_find_space(
                old(mount).store@, old(self).blocks@, old(mount).superblock.block_size as int, old(self).attrs.size as int,
                0, spec_min_entry_len(filename@.len() as int)) {
                Err(e) => r matches Err(e2) && e2 == e,
                Ok((Some((b, off)), _)) => (r is Ok <==> spec_new_entry_offset(old(mount).store@.block(b as int), off)
                    + DIRENT_HEADER_SIZE + filename@.len() <= old(mount).superblock.block_size),
                Ok((None, _)) => true,
            },
            match r {
                Ok(v) => {
                    &&& v.wf()
                    &&& v.attrs.inode >= 1
                    &&& v.attrs.access == access && v.attrs.uid == uid && v.attrs.gid == gid
                    &&& v.attrs.size == 0
                    &&& exists|b: u32, o: int|
                        entry_added(final(mount).store@, b, o, v.attrs.inode, filename@, spec_to_file_type(access))
                },
                Err(_) => true,
            },
    {
        if !self.attrs.access.is_dir() {
            return Err(KernelError::OperationNotPermitted);
        }
        let ghost m0 = *mount;
        let (inode_num, vnode) = mount.alloc_inode(self.attrs.inode, access, uid, gid)?;
        proof {
            if allocates_apart(m0, *self) {
                let bs = m0.superblock.block_size as int;
                let size = self.attrs.size as int;
                let item = spec_alloc_item(m0.superblock, m0.store@,
                    (self.attrs.inode as int) / (m0.superblock.inodes_per_group as int), true).get_Ok_0();
                let bitmap_block = m0.superblock.groups@[item.0].inode_bitmap as int;
                let marked = m0.store@.set_block(bitmap_block, item.2);
                let num = (item.1 + 1) as u32;
                let block = m0.superblock.spec_inode_entry_location(num).get_Ok_0().0;
                let t = mount.store@.block(block);
                crate::block::lemma_block_bounds(m0.store@, bitmap_block);
                crate::block::lemma_block_bounds(marked, block);
                assert forall|z: int| 0 <= z <= size / bs && #[trigger] self.blocks@[z] != 0 implies
                    mount.store@.read(self.blocks@[z] as int) == m0.store@.read(self.blocks@[z] as int) by {
                    lemma_read_after_write(m0.store@, bitmap_block, self.blocks@[z] as int, item.2);
                    lemma_read_after_write(marked, block, self.blocks@[z] as int, t);
                }
                lemma_find_space_frame(m0.store@, mount.store@, self.blocks@, bs, size, 0,
                    spec_min_entry_len(filename@.len() as int));
                match spec_find_space(m0.store@, self.blocks@, bs, size, 0, spec_min_entry_len(filename@.len() as int)) {
                    Ok((Some((b, off)), _)) => {
                        crate::fs::ext2::directory_proofs::lemma_find_space_at(m0.store@, self.blocks@, bs, size, 0,
                            spec_min_entry_len(filename@.len() as int), b, off,
                            spec_find_space(m0.store@, self.blocks@, bs, size, 0, spec_min_entry_len(filename@.len() as int)).get_Ok_0().1);
                        assert(mount.store@.block(b as int) == m0.store@.block(b as int));
                    },
                    _ => {},
                }
            }
        }
        self.add_directory_to_vnode(mount, access, filename, inode_num)?;
        Ok(vnode)
    }

    /// Adds an entry named `filename` for the inode of `target` to the directory, with the
    /// directory's own mode as the entry's type, and counts the new link in `target`.
    pub fn link(&mut self, mount: &mut Ext2Mount, target: &mut Ext2Vnode, filename: &[u8]) -> (r: Result<(), KernelError>)
        requires
            dirs_usable(old(mount)),
            old(self).wf(),
            old(self).attrs.size + old(mount).superblock.block_size <= usize::MAX,
            filename@.len() + DIRENT_HEADER_SIZE + 3 <= usize::MAX,
            old(target).attrs.nlinks < u16::MAX,
        ensures
            dirs_usable(final(mount)),
            final(self).wf(),
            final(self).attrs.nlinks == old(self).attrs.nlinks,
            final(self).attrs.access == old(self).attrs.access,
            final(self).attrs.inode == old(self).attrs.inode,
            final(self).dirty == old(self).dirty,
            final(mount).superblock.block_size == old(mount).superblock.block_size,
            final(target).blocks@ == old(target).blocks@,
            final(target).attrs.inode == old(target).attrs.inode,
            match r {
                Ok(_) => {
                    &&& final(target).attrs.nlinks == old(target).attrs.nlinks + 1
                    &&& final(target).dirty
                    &&& exists|b: u32, o: int| entry_added(final(mount).store@, b, o, old(target).attrs.inode,
                        filename@, spec_to_file_type(old(self).attrs.access))
                },
                Err(_) => final(target).attrs == old(target).attrs,
            },
            filename@.len() + DIRENT_HEADER_SIZE > old(mount).superblock.block_size ==> r is Err,
            match spec_find_space(old(mount).store@, old(self).blocks@, old(mount).superblock.block_size as int,
                old(self).attrs.size as int, 0, spec_min_entry_len(filename@.len() as int)) {
                Ok((Some((b, off)), _)) => {
                    let o = spec_new_entry_offset(old(mount).store@.block(b as int), off);
                    &&& (r is Ok <==> o + DIRENT_HEADER_SIZE + filename@.len() <= old(mount).superblock.block_size)
                    &&& (r is Ok ==> entry_added(final(mount).store@, b, o, old(target).attrs.inode, filename@,
                        spec_to_file_type(old(self).attrs.access)))
                    &&& (r is Ok ==> entry_written(old(mount).store@.block(b as int), final(mount).store@.block(b as int),
                        off, old(target).attrs.inode, filename@, spec_to_file_type(old(self).attrs.access)))
                    &&& *final(self) == *old(self)
                    &&& final(mount).store@ == old(mount).store@.set_block(b as int, final(mount).store@.block(b as int))
                },
                Ok((None, z)) => {
                    &&& r is Ok ==> final(self).attrs.size == old(self).attrs.size + old(mount).superblock.block_size
                    &&& ({
                        let a = spec_file_block_alloc(old(mount).superblock, alloc_state(old(mount).superblock,
                            old(mount).store@), old(self).blocks@, old(self).attrs.inode, z);
                        &&& (r is Ok <==> (a.0 matches Ok(Some(b)) && a.1.store.has_block(b as int)
                            && DIRENT_HEADER_SIZE + filename@.len() <= old(mount).superblock.block_size))
                        &&& (r is Ok ==> (a.0 matches Ok(Some(b)) && final(self).blocks@ == a.2
                            && final(mount).superblock.groups@ == a.1.groups
                            && final(mount).store@ == a.1.store.set_block(b as int, final(mount).store@.block(b as int))
                            && entry_added(final(mount).store@, b, 0, old(target).attrs.inode, filename@, spec_to_file_type(old(self).attrs.access))))
                        &&& match a.0 {
                            Ok(Some(b)) => (r is Ok && file_alloc_apart(old(mount).superblock, alloc_state(
                                old(mount).superblock, old(mount).store@), old(self).blocks@, old(self).attrs.inode, z)
                                && !file_block_reads(a.1.store, a.2, old(mount).superblock.block_size as int, z, b))
                                ==> spec_file_block(final(mount).store@, final(self).blocks@,
                                    old(mount).superblock.block_size as int, z) == Ok::<Option<u32>, KernelError>(Some(b)),
                            _ => true,
                        }
                    })
                    &&& 0 <= z < EXT2_INODE_DIRECT_BLOCKS ==> {
                        &&& (r is Ok <==> new_block_ready(old(mount).superblock, old(mount).store@, old(self).blocks@,
                                old(self).attrs.inode, z)
                            && DIRENT_HEADER_SIZE + filename@.len() <= old(mount).superblock.block_size)
                        &&& (r is Ok ==> final(self).blocks@ == old(self).blocks@.update(z, final(self).blocks@[z])
                            && (old(self).blocks@[z] != 0 ==> final(self).blocks@[z] == old(self).blocks@[z])
                            && entry_added(final(mount).store@, final(self).blocks@[z], 0, old(target).attrs.inode,
                                filename@, spec_to_file_type(old(self).attrs.access))
                            && forall|x: int| x != final(self).blocks@[z] && x != alloc_bitmap_block(old(mount).superblock,
                                old(mount).store@, old(self).attrs.inode)
                                ==> #[trigger] final(mount).store@.read(x) == old(mount).store@.read(x))
                    }
                },
                Err(e) => r == Err::<(), KernelError>(e) && final(mount).store@ == old(mount).store@
                    && *final(self) == *old(self),
            },
    {
        let access = self.attrs.access;
        self.add_directory_to_vnode(mount, access, filename, target.attrs.inode)?;
        target.attrs.nlinks = target.attrs.nlinks + 1;
        target.dirty = true;
        Ok(())
    }
}

impl Ext2Vnode {
    /// Renames the entry `old_name` of the directory to `new_name`: the inode it names is
    /// linked under the new name, the old entry is removed, and the directory's link count
    /// drops by one.
    pub fn rename(&mut self, mount: &mut Ext2Mount, old_name: &[u8], new_name: &[u8]) -> (r: Result<(), KernelError>)
        requires
            dirs_usable(old(mount)),
            old(self).wf(),
            old(self).attrs.size + old(mount).superblock.block_size + 0x1_0000 <= usize::MAX,
            new_name@.len() + DIRENT_HEADER_SIZE + 3 <= usize::MAX,
            old(self).attrs.nlinks >= 1,
        ensures
            dirs_usable(final(mount)),
            final(self).wf(),
            !old(self).attrs.access.spec_is_dir() ==> (r matches Err(e) && e == KernelError::NotADirectory),
            old(self).attrs.access.spec_is_dir() ==> match spec_lookup(old(mount).store@, old(self).blocks@,
                old(mount).superblock.block_size as int, old(self).attrs.size as int, 0, old_name@) {
                Err(e) => r == Err::<(), KernelError>(e) && *final(mount) == *old(mount) && *final(self) == *old(self),
                Ok(inode) => if inode == 0 || !old(mount).inode_in_block(inode) {
                    r == Err::<(), KernelError>(KernelError::InvalidInode) && *final(mount) == *old(mount)
                } else {
                    match old(mount).spec_read_inode(inode) {
                        Err(e) => r == Err::<(), KernelError>(e) && *final(mount) == *old(mount),
                        Ok((bytes, offset)) => r is Ok ==>
                            spec_read_le16(bytes, offset + INODE_NUM_LINKS) < u16::MAX,
                    }
                },
            },
            r is Ok ==> {
                &&& final(self).attrs.nlinks == old(self).attrs.nlinks - 1
                &&& final(self).dirty
            },
    {
        let inode = self.lookup(mount, old_name)?;
        if inode == 0 {
            return Err(KernelError::InvalidInode);
        }
        let mut target = mount.get_inode(inode)?;
        if target.attrs.nlinks == 0xffff {
            return Err(KernelError::InvalidInode);
        }
        self.link(mount, &mut target, new_name)?;
        if !mount.inode_placeable(inode) {
            return Err(KernelError::InvalidInode);
        }
        mount.store_inode(&target, inode)?;
        self.remove_directory_entry(mount, old_name)?;
        self.attrs.nlinks = self.attrs.nlinks - 1;
        self.dirty = true;
        Ok(())
    }
}

} // verus!
