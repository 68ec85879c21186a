use vstd::prelude::*;

use crate::errors::KernelError;
use crate::misc::{read_le16, read_le32, write_le16, write_le32, spec_read_le16, spec_read_le32};
use crate::block::{BlockStore, BlockStoreView, DeviceID, lemma_read_after_write};
use crate::fs::types::{FileAttributes, FileAccess};
use super::superblock::{Ext2SuperBlock, bit_is_set, spec_alloc_item, spec_take_free, same_layout, can_free_in, alloc_inode_ready, load_safe, spec_superblock_error,
    superblock_matches, spec_group_at, SB_SIZE, spec_size_from_log, SB_LOG_BLOCK_SIZE, SB_SUPERBLOCK_BLOCK, EXT2_GROUP_DESCRIPTOR_SIZE, spec_superblock_block_num};

verus! {

pub const EXT2_INODE_DIRECT_BLOCKS: usize = 12;
pub const EXT2_INODE_INDIRECT_BLOCKS: usize = 13;
pub const EXT2_INODE_DOUBLE_INDIRECT_BLOCKS: usize = 14;
pub const EXT2_INODE_TRIPLE_INDIRECT_BLOCKS: usize = 15;
pub const EXT2_INODE_BLOCK_ENTRIES: usize = 15;

/// The size in bytes of the inode fields that are read and written.
pub const EXT2_INODE_SIZE: usize = 128;

// Offsets of the fields of an inode on disk.
pub const INODE_MODE: usize = 0;
pub const INODE_UID: usize = 2;
pub const INODE_SIZE: usize = 4;
pub const INODE_ATIME: usize = 8;
pub const INODE_CTIME: usize = 12;
pub const INODE_MTIME: usize = 16;
pub const INODE_GID: usize = 24;
pub const INODE_NUM_LINKS: usize = 26;
pub const INODE_BLOCKS: usize = 40;

/// A mounted ext2 filesystem: its superblock and its device as seen through the buffer cache.
pub struct Ext2Mount {
    pub device_id: DeviceID,
    pub superblock: Ext2SuperBlock,
    pub store: BlockStore,
}

/// An inode in memory.
pub struct Ext2Vnode {
    pub attrs: FileAttributes,
    pub blocks: Vec<u32>,
    pub dirty: bool,
    pub freed: bool,
}

impl Ext2Mount {
    /// The superblock and the store agree and the superblock's invariants hold.
    pub open spec fn wf(&self) -> bool {
        &&& self.superblock.wf()
        &&& self.store@.wf()
        &&& self.store@.block_size == self.superblock.block_size
        &&& self.superblock.inode_size >= EXT2_INODE_SIZE
        &&& self.superblock.inodes_per_group <= 8 * self.superblock.block_size
        &&& self.superblock.blocks_per_group <= 8 * self.superblock.block_size
    }

    /// The inode's place in the inode table lies inside a block.
    pub open spec fn inode_in_block(&self, inode_num: u32) -> bool {
        &&& self.superblock.inode_entry_computable(inode_num)
        &&& self.superblock.spec_inode_entry_location(inode_num) matches Ok((_, offset))
            ==> offset + EXT2_INODE_SIZE <= self.superblock.block_size
    }
}

impl Ext2Vnode {
    /// A vnode holds a block pointer for each entry of the inode's block table.
    pub open spec fn wf(&self) -> bool {
        self.blocks@.len() == EXT2_INODE_BLOCK_ENTRIES
    }

    /// A new vnode with the given attributes and no blocks.
    pub fn new(attrs: FileAttributes) -> (r: Self)
        ensures
            r.wf(),
            r.attrs == attrs,
            r.blocks@ == Seq::new(EXT2_INODE_BLOCK_ENTRIES as nat, |i: int| 0u32),
            !r.dirty && !r.freed,
    {
        let mut blocks: Vec<u32> = Vec::new();
        let mut i: usize = 0;
        while i < EXT2_INODE_BLOCK_ENTRIES
            invariant
                0 <= i <= EXT2_INODE_BLOCK_ENTRIES,
                blocks@ == Seq::new(i as nat, |k: int| 0u32),
            decreases EXT2_INODE_BLOCK_ENTRIES - i,
        {
            blocks.push(0);
            i += 1;
            assert(blocks@ =~= Seq::new(i as nat, |k: int| 0u32));
        }
        Ext2Vnode { attrs, blocks, dirty: false, freed: false }
    }
}

/// The block pointers of the inode held at `offset` in a block of the inode table.
pub open spec fn spec_inode_blocks(bytes: Seq<u8>, offset: int) -> Seq<u32> {
    Seq::new(EXT2_INODE_BLOCK_ENTRIES as nat, |i: int| spec_read_le32(bytes, offset + INODE_BLOCKS + i * 4))
}

/// The attributes of the inode held at `offset` in a block of the inode table.
pub open spec fn inode_attrs_match(attrs: FileAttributes, bytes: Seq<u8>, offset: int, inode_num: u32) -> bool {
    &&& attrs.inode == inode_num
    &&& attrs.access == FileAccess(spec_read_le16(bytes, offset + INODE_MODE))
    &&& attrs.nlinks == spec_read_le16(bytes, offset + INODE_NUM_LINKS)
    &&& attrs.uid == spec_read_le16(bytes, offset + INODE_UID)
    &&& attrs.gid == spec_read_le16(bytes, offset + INODE_GID)
    &&& attrs.size == spec_read_le32(bytes, offset + INODE_SIZE) as usize
    &&& attrs.atime == spec_read_le32(bytes, offset + INODE_ATIME)
    &&& attrs.mtime == spec_read_le32(bytes, offset + INODE_MTIME)
    &&& attrs.ctime == spec_read_le32(bytes, offset + INODE_CTIME)
}

/// The bytes of an inode table block after inode fields were written at `offset` into
/// `bytes`: the block pointers, mode, link count, owner, group, size (modulo 2^32) and times of
/// `vnode`, every byte outside the inode's slot left as it was.
pub open spec fn inode_written(new_bytes: Seq<u8>, bytes: Seq<u8>, offset: int, vnode: Ext2Vnode) -> bool {
    &&& new_bytes.len() == bytes.len()
    &&& spec_inode_blocks(new_bytes, offset) == vnode.blocks@
    &&& spec_read_le16(new_bytes, offset + INODE_MODE) == vnode.attrs.access.0
    &&& spec_read_le16(new_bytes, offset + INODE_NUM_LINKS) == vnode.attrs.nlinks
    &&& spec_read_le16(new_bytes, offset + INODE_UID) == vnode.attrs.uid
    &&& spec_read_le16(new_bytes, offset + INODE_GID) == vnode.attrs.gid
    &&& spec_read_le32(new_bytes, offset + INODE_SIZE) == vnode.attrs.size as u32
    &&& spec_read_le32(new_bytes, offset + INODE_ATIME) == vnode.attrs.atime
    &&& spec_read_le32(new_bytes, offset + INODE_MTIME) == vnode.attrs.mtime
    &&& spec_read_le32(new_bytes, offset + INODE_CTIME) == vnode.attrs.ctime
    &&& forall|k: int| 0 <= k < bytes.len() && !(offset <= k < offset + EXT2_INODE_SIZE)
        ==> #[trigger] new_bytes[k] == bytes[k]
}

/// What storing `vnode` as inode `inode_num` does: the error of locating the inode or of
/// reading its block, with nothing changed; or success, with only the inode's block rewritten.
pub open spec fn store_inode_outcome(before: Ext2Mount, after: Ext2Mount, vnode: Ext2Vnode, inode_num: u32,
    r: Result<(), KernelError>) -> bool
{
    &&& after.superblock == before.superblock
    &&& after.device_id == before.device_id
    &&& match before.superblock.spec_inode_entry_location(inode_num) {
        Err(e) => r == Err::<(), KernelError>(e) && after.store@ == before.store@,
        Ok((block, offset)) => match before.store@.read(block) {
            Err(e) => r == Err::<(), KernelError>(e) && after.store@ == before.store@,
            Ok(bytes) => {
                let new_bytes = after.store@.block(block);
                &&& r is Ok
                &&& after.store@ == before.store@.set_block(block, new_bytes)
                &&& inode_written(new_bytes, bytes, offset, vnode)
            },
        },
    }
}

impl Ext2Mount {
    /// What reading inode `inode_num` finds: the block of the inode table that holds it and
    /// its offset there; or the error of locating it, of reading its bitmap, `InvalidInode`
    /// where its bit is clear, or the error of reading its block.
    pub open spec fn spec_read_inode(&self, inode_num: u32) -> Result<(Seq<u8>, int), KernelError> {
        match self.superblock.spec_inode_group_and_offset(inode_num) {
            Err(e) => Err(e),
            Ok((g, gi)) => match self.store@.read(self.superblock.groups@[g].inode_bitmap as int) {
                Err(e) => Err(e),
                Ok(bitmap) => if !bit_is_set(bitmap, gi) {
                    Err(KernelError::InvalidInode)
                } else {
                    match self.superblock.spec_inode_entry_location(inode_num) {
                        Err(e) => Err(e),
                        Ok((block, offset)) => match self.store@.read(block) {
                            Err(e) => Err(e),
                            Ok(bytes) => Ok((bytes, offset)),
                        },
                    }
                },
            },
        }
    }
}

impl Ext2Mount {
    /// Reads inode `inode_num` into `vnode`, after checking that it is allocated.
    pub fn load_inode(&self, vnode: &mut Ext2Vnode, inode_num: u32) -> (r: Result<(), KernelError>)
        requires
            self.wf(),
            old(vnode).wf(),
            inode_num >= 1,
            self.inode_in_block(inode_num),
        ensures
            final(vnode).wf(),
            match self.spec_read_inode(inode_num) {
                Err(e) => r == Err::<(), KernelError>(e) && *final(vnode) == *old(vnode),
                Ok((bytes, offset)) => r is Ok && final(vnode).blocks@ == spec_inode_blocks(bytes, offset)
                    && inode_attrs_match(final(vnode).attrs, bytes, offset, inode_num)
                    && final(vnode).attrs.rdev == old(vnode).attrs.rdev,
            },
    {
        let (block_num, byte_offset) = self.superblock.get_inode_entry_location(inode_num)?;
        self.superblock.check_inode_is_allocated(&self.store, inode_num)?;
        let buf = self.store.read_block(block_num)?;
        proof { crate::block::lemma_block_bounds(self.store@, block_num as int); }
        let data = buf.as_slice();
        let n = data.len();

        let mut i: usize = 0;
        while i < EXT2_INODE_BLOCK_ENTRIES
            invariant
                0 <= i <= EXT2_INODE_BLOCK_ENTRIES,
                vnode.blocks@.len() == EXT2_INODE_BLOCK_ENTRIES,
                vnode.attrs == old(vnode).attrs,
                n == data@.len(),
                byte_offset + EXT2_INODE_SIZE <= n,
                forall|k: int| 0 <= k < i ==> #[trigger] vnode.blocks@[k] == spec_read_le32(data@, byte_offset + INODE_BLOCKS + k * 4),
            decreases EXT2_INODE_BLOCK_ENTRIES - i,
        {
            let value = read_le32(data, byte_offset + INODE_BLOCKS + i * 4);
            vnode.blocks.set(i, value);
            i += 1;
        }
        assert(vnode.blocks@ =~= spec_inode_blocks(data@, byte_offset as int));

        vnode.attrs.inode = inode_num;
        vnode.attrs.access = FileAccess(read_le16(data, byte_offset + INODE_MODE));
        vnode.attrs.nlinks = read_le16(data, byte_offset + INODE_NUM_LINKS);
        vnode.attrs.uid = read_le16(data, byte_offset + INODE_UID);
        vnode.attrs.gid = read_le16(data, byte_offset + INODE_GID);
        vnode.attrs.size = read_le32(data, byte_offset + INODE_SIZE) as usize;
        vnode.attrs.atime = read_le32(data, byte_offset + INODE_ATIME);
        vnode.attrs.mtime = read_le32(data, byte_offset + INODE_MTIME);
        vnode.attrs.ctime = read_le32(data, byte_offset + INODE_CTIME);
        Ok(())
    }

    /// Writes the attributes and block pointers of `vnode` into inode `inode_num` on disk.
    pub fn store_inode(&mut self, vnode: &Ext2Vnode, inode_num: u32) -> (r: Result<(), KernelError>)
        requires
            old(self).wf(),
            vnode.wf(),
            inode_num >= 1,
            old(self).inode_in_block(inode_num),
        ensures
            final(self).wf(),
            final(self).store@.data.len() == old(self).store@.data.len(),
            store_inode_outcome(*old(self), *final(self), *vnode, inode_num, r),
    {
        let (block_num, byte_offset) = self.superblock.get_inode_entry_location(inode_num)?;
        let mut buf = self.store.read_block(block_num)?;
        proof { crate::block::lemma_block_bounds(self.store@, block_num as int); }
        let ghost orig = buf@;
        write_inode_fields(&mut buf, byte_offset, vnode);
        let ghost new_bytes = buf@;
        let _ = self.store.write_block(block_num, &buf);
        assert(self.store@ == old(self).store@.set_block(block_num as int, new_bytes));
        assert(old(self).store@.read(block_num as int) == Ok::<Seq<u8>, KernelError>(orig));
        proof { lemma_read_after_write(old(self).store@, block_num as int, block_num as int, new_bytes); }
        Ok(())
    }
}

/// Writes the block pointers and attributes of `vnode` into the inode slot at `byte_offset`
/// of an inode table block.
#[verifier::spinoff_prover]
#[verifier::rlimit(40)]
fn write_inode_fields(buf: &mut Vec<u8>, byte_offset: usize, vnode: &Ext2Vnode)
    requires
        vnode.wf(),
        byte_offset + EXT2_INODE_SIZE <= old(buf)@.len(),
    ensures
        inode_written(final(buf)@, old(buf)@, byte_offset as int, *vnode),
{
    let ghost orig = buf@;
    let n = buf.len();

    let mut i: usize = 0;
    while i < EXT2_INODE_BLOCK_ENTRIES
        invariant
            0 <= i <= EXT2_INODE_BLOCK_ENTRIES,
            vnode.blocks@.len() == EXT2_INODE_BLOCK_ENTRIES,
            byte_offset + EXT2_INODE_SIZE <= n,
            n == buf@.len(),
            n == orig.len(),
            forall|k: int| 0 <= k < i ==> #[trigger] spec_read_le32(buf@, byte_offset + INODE_BLOCKS + k * 4) == vnode.blocks@[k],
            forall|k: int| 0 <= k < n && !(byte_offset + INODE_BLOCKS <= k < byte_offset + INODE_BLOCKS + i * 4)
                ==> #[trigger] buf@[k] == orig[k],
        decreases EXT2_INODE_BLOCK_ENTRIES - i,
    {
        let ghost before = buf@;
        write_le32(buf, byte_offset + INODE_BLOCKS + i * 4, vnode.blocks[i]);
        proof {
            assert forall|k: int| 0 <= k < i + 1 implies #[trigger] spec_read_le32(buf@, byte_offset + INODE_BLOCKS + k * 4) == vnode.blocks@[k] by {
                if k < i {
                    assert(spec_read_le32(before, byte_offset + INODE_BLOCKS + k * 4) == vnode.blocks@[k]);
                }
            }
        }
        i += 1;
    }
    let ghost with_blocks = buf@;
    write_le16(buf, byte_offset + INODE_MODE, vnode.attrs.access.0);
    write_le16(buf, byte_offset + INODE_NUM_LINKS, vnode.attrs.nlinks);
    write_le16(buf, byte_offset + INODE_UID, vnode.attrs.uid);
    write_le16(buf, byte_offset + INODE_GID, vnode.attrs.gid);
    write_le32(buf, byte_offset + INODE_SIZE, vnode.attrs.size as u32);
    write_le32(buf, byte_offset + INODE_ATIME, vnode.attrs.atime);
    write_le32(buf, byte_offset + INODE_MTIME, vnode.attrs.mtime);
    write_le32(buf, byte_offset + INODE_CTIME, vnode.attrs.ctime);
    proof {
        assert forall|k: int| 0 <= k < EXT2_INODE_BLOCK_ENTRIES implies
            #[trigger] spec_inode_blocks(buf@, byte_offset as int)[k] == vnode.blocks@[k] by {
            assert(spec_read_le32(with_blocks, byte_offset + INODE_BLOCKS + k * 4) == vnode.blocks@[k]);
        }
        assert(spec_inode_blocks(buf@, byte_offset as int) =~= vnode.blocks@);
        assert(inode_written(buf@, orig, byte_offset as int, *vnode));
    }
}

/// Inode `inode_num` has its bit set in its group's inode bitmap, and the byte that holds that
/// bit lies outside the inode's own slot of the inode table.
pub open spec fn allocated_apart(m: Ext2Mount, inode_num: u32) -> bool {
    match (m.superblock.spec_inode_group_and_offset(inode_num), m.superblock.spec_inode_entry_location(inode_num)) {
        (Ok((g, gi)), Ok((block, offset))) => {
            &&& (block != m.superblock.groups@[g].inode_bitmap || !(offset <= gi / 8 < offset + EXT2_INODE_SIZE))
            &&& m.store@.read(m.superblock.groups@[g].inode_bitmap as int) matches Ok(bitmap)
            &&& bit_is_set(bitmap, gi)
        },
        _ => false,
    }
}

/// Loading an inode gives back what storing it wrote: once `store_inode` has written `vnode`
/// as inode `inode_num`, an allocated inode whose bitmap bit lies outside the inode's own slot,
/// reading that inode finds the block pointers of `vnode` and its mode, link count,
/// owner, group, size and times.
pub proof fn lemma_load_after_store(before: Ext2Mount, after: Ext2Mount, vnode: Ext2Vnode, inode_num: u32)
    requires
        before.wf(),
        vnode.wf(),
        inode_num >= 1,
        vnode.attrs.size <= u32::MAX,
        store_inode_outcome(before, after, vnode, inode_num, Ok(())),
        allocated_apart(before, inode_num),
    ensures
        after.spec_read_inode(inode_num) matches Ok((bytes, offset))
            && spec_inode_blocks(bytes, offset) == vnode.blocks@
            && inode_attrs_match(FileAttributes { inode: inode_num, ..vnode.attrs }, bytes, offset, inode_num),
{
    let (g, gi) = before.superblock.spec_inode_group_and_offset(inode_num).get_Ok_0();
    let (block, offset) = before.superblock.spec_inode_entry_location(inode_num).get_Ok_0();
    let bm = before.superblock.groups@[g].inode_bitmap as int;
    let new_bytes = after.store@.block(block);
    crate::block::lemma_block_bounds(before.store@, block);
    lemma_read_after_write(before.store@, block, bm, new_bytes);
    lemma_read_after_write(before.store@, block, block, new_bytes);
    if bm == block {
        let old_bytes = before.store@.block(block);
        assert(new_bytes[gi / 8] == old_bytes[gi / 8]);
    }
    assert(FileAccess(spec_read_le16(new_bytes, offset + INODE_MODE)) == vnode.attrs.access);
}

/// Where reading an inode takes its fields from, as ext2 lays out an inode's slot: the mode
/// from bytes 0..2, the owner from bytes 2..4, the size from bytes 4..8, the access, change and
/// modification times from bytes 8..12, 12..16 and 16..20, the group from bytes 24..26, the link
/// count from bytes 26..28 and the fifteen block pointers from bytes 40..100, each little-endian.
pub proof fn lemma_inode_fields_on_disk(attrs: FileAttributes, blocks: Seq<u32>, bytes: Seq<u8>, offset: int,
    inode_num: u32)
    requires
        0 <= offset,
        offset + 128 <= bytes.len(),
        inode_attrs_match(attrs, bytes, offset, inode_num),
        blocks == spec_inode_blocks(bytes, offset),
    ensures
        attrs.inode == inode_num,
        attrs.access.0 as int == bytes[offset] + bytes[offset + 1] * 256,
        attrs.uid as int == bytes[offset + 2] + bytes[offset + 3] * 256,
        attrs.size as int == bytes[offset + 4] + bytes[offset + 5] * 256 + bytes[offset + 6] * 65536
            + bytes[offset + 7] * 16777216,
        attrs.atime as int == bytes[offset + 8] + bytes[offset + 9] * 256 + bytes[offset + 10] * 65536
            + bytes[offset + 11] * 16777216,
        attrs.ctime as int == bytes[offset + 12] + bytes[offset + 13] * 256 + bytes[offset + 14] * 65536
            + bytes[offset + 15] * 16777216,
        attrs.mtime as int == bytes[offset + 16] + bytes[offset + 17] * 256 + bytes[offset + 18] * 65536
            + bytes[offset + 19] * 16777216,
        attrs.gid as int == bytes[offset + 24] + bytes[offset + 25] * 256,
        attrs.nlinks as int == bytes[offset + 26] + bytes[offset + 27] * 256,
        blocks.len() == 15,
        forall|i: int| 0 <= i < 15 ==> #[trigger] blocks[i] as int == bytes[offset + 40 + 4 * i]
            + bytes[offset + 41 + 4 * i] * 256 + bytes[offset + 42 + 4 * i] * 65536 + bytes[offset + 43 + 4 * i] * 16777216,
{
    assert forall|i: int| 0 <= i < 15 implies #[trigger] blocks[i] as int == bytes[offset + 40 + 4 * i]
        + bytes[offset + 41 + 4 * i] * 256 + bytes[offset + 42 + 4 * i] * 65536 + bytes[offset + 43 + 4 * i] * 16777216 by {
        assert(blocks[i] == spec_read_le32(bytes, offset + INODE_BLOCKS + i * 4));
    }
}

/// Where storing an inode puts its fields, as ext2 lays out an inode's slot: the mode in bytes
/// 0..2, the owner in bytes 2..4, the size (its low 32 bits) in bytes 4..8, the access, change and
/// modification times in bytes 8..12, 12..16 and 16..20, the group in bytes 24..26, the link
/// count in bytes 26..28 and the fifteen block pointers in bytes 40..100, each little-endian.
pub proof fn lemma_inode_fields_stored(new_bytes: Seq<u8>, bytes: Seq<u8>, offset: int, vnode: Ext2Vnode)
    requires
        0 <= offset,
        offset + 128 <= bytes.len(),
        inode_written(new_bytes, bytes, offset, vnode),
    ensures
        new_bytes[offset] + new_bytes[offset + 1] * 256 == vnode.attrs.access.0 as int,
        new_bytes[offset + 2] + new_bytes[offset + 3] * 256 == vnode.attrs.uid as int,
        new_bytes[offset + 4] + new_bytes[offset + 5] * 256 + new_bytes[offset + 6] * 65536
            + new_bytes[offset + 7] * 16777216 == (vnode.attrs.size as u32) as int,
        new_bytes[offset + 8] + new_bytes[offset + 9] * 256 + new_bytes[offset + 10] * 65536
            + new_bytes[offset + 11] * 16777216 == vnode.attrs.atime as int,
        new_bytes[offset + 12] + new_bytes[offset + 13] * 256 + new_bytes[offset + 14] * 65536
            + new_bytes[offset + 15] * 16777216 == vnode.attrs.ctime as int,
        new_bytes[offset + 16] + new_bytes[offset + 17] * 256 + new_bytes[offset + 18] * 65536
            + new_bytes[offset + 19] * 16777216 == vnode.attrs.mtime as int,
        new_bytes[offset + 24] + new_bytes[offset + 25] * 256 == vnode.attrs.gid as int,
        new_bytes[offset + 26] + new_bytes[offset + 27] * 256 == vnode.attrs.nlinks as int,
        forall|i: int| 0 <= i < 15 ==> new_bytes[offset + 40 + 4 * i] + new_bytes[offset + 41 + 4 * i] * 256
            + new_bytes[offset + 42 + 4 * i] * 65536 + new_bytes[offset + 43 + 4 * i] * 16777216
            == #[trigger] vnode.blocks@[i] as int,
{
    assert forall|i: int| 0 <= i < 15 implies new_bytes[offset + 40 + 4 * i] + new_bytes[offset + 41 + 4 * i] * 256
        + new_bytes[offset + 42 + 4 * i] * 65536 + new_bytes[offset + 43 + 4 * i] * 16777216
        == #[trigger] vnode.blocks@[i] as int by {
        assert(spec_inode_blocks(new_bytes, offset)[i] == vnode.blocks@[i]);
    }
}

impl Ext2Vnode {
    /// Writes the inode back to disk when it has changed and has not been freed.
    pub fn writeback(&self, mount: &mut Ext2Mount) -> (r: Result<(), KernelError>)
        requires
            old(mount).wf(),
            self.wf(),
            self.dirty && !self.freed ==> self.attrs.inode >= 1 && old(mount).inode_in_block(self.attrs.inode),
        ensures
            final(mount).wf(),
            final(mount).superblock == old(mount).superblock,
            !(self.dirty && !self.freed) ==> r is Ok && final(mount).store@ == old(mount).store@,
            self.dirty && !self.freed ==> match old(mount).superblock.spec_inode_entry_location(self.attrs.inode) {
                Err(e) => r == Err::<(), KernelError>(e) && final(mount).store@ == old(mount).store@,
                Ok((block, _)) => match old(mount).store@.read(block) {
                    Err(e) => r == Err::<(), KernelError>(e) && final(mount).store@ == old(mount).store@,
                    Ok(_) => r is Ok,
                },
            },
            self.dirty && !self.freed ==> store_inode_outcome(*old(mount), *final(mount), *self, self.attrs.inode, r),
    {
        if self.dirty && !self.freed {
            mount.store_inode(self, self.attrs.inode)?;
        }
        Ok(())
    }

    /// Frees inode `inode_num` in the filesystem and marks this vnode as freed.
    pub fn free_inode(&mut self, mount: &mut Ext2Mount, inode_num: u32) -> (r: Result<(), KernelError>)
        requires
            old(mount).wf(),
            inode_num >= 1,
            old(mount).superblock.spec_inode_group_and_offset(inode_num) matches Ok((g, _))
                ==> can_free_in(old(mount).superblock, g, true),
        ensures
            final(mount).wf(),
            r is Ok ==> final(self).freed,
            r is Err ==> final(self).freed == old(self).freed,
            final(self).attrs == old(self).attrs,
            final(self).blocks@ == old(self).blocks@,
            final(self).dirty == old(self).dirty,
            match old(mount).superblock.spec_inode_group_and_offset(inode_num) {
                Err(e) => r == Err::<(), KernelError>(e),
                Ok((g, _)) => match old(mount).store@.read(old(mount).superblock.groups@[g].inode_bitmap as int) {
                    Err(e) => r == Err::<(), KernelError>(e),
                    Ok(_) => r is Ok && final(mount).superblock.total_unalloc_inodes == old(mount).superblock.total_unalloc_inodes + 1,
                },
            },
    {
        mount.superblock.free_inode(&mut mount.store, inode_num)?;
        self.freed = true;
        Ok(())
    }
}

impl Ext2Mount {
    /// True when the place of inode `inode_num` in the inode table can be computed and lies
    /// inside a block.
    pub fn inode_placeable(&self, inode_num: u32) -> (r: bool)
        requires
            self.wf(),
            inode_num >= 1,
        ensures
            r == self.inode_in_block(inode_num),
    {
        match self.superblock.get_inode_group_and_offset(inode_num) {
            Err(_) => true,
            Ok((group, group_inode)) => {
                let ipb = self.superblock.inodes_per_block;
                let block = self.superblock.groups[group].inode_table as u64 + (group_inode as usize / ipb) as u64;
                if block > 0xffff_ffff {
                    return false;
                }
                let index = group_inode as usize % ipb;
                match index.checked_mul(self.superblock.inode_size) {
                    None => false,
                    Some(offset) => {
                        let bs = self.superblock.block_size;
                        bs >= EXT2_INODE_SIZE && offset <= bs - EXT2_INODE_SIZE
                    },
                }
            },
        }
    }

    /// Reads inode `inode_num` into a new vnode, after checking that it is allocated;
    /// `InvalidInode` when its place in the inode table does not lie inside a block.
    pub fn get_inode(&self, inode_num: u32) -> (r: Result<Ext2Vnode, KernelError>)
        requires
            self.wf(),
            inode_num >= 1,
        ensures
            !self.inode_in_block(inode_num) ==> (r matches Err(e) && e == KernelError::InvalidInode),
            self.inode_in_block(inode_num) ==> match self.spec_read_inode(inode_num) {
                Err(e) => r matches Err(e2) && e2 == e,
                Ok((bytes, offset)) => r matches Ok(v) && v.wf() && v.blocks@ == spec_inode_blocks(bytes, offset)
                    && inode_attrs_match(v.attrs, bytes, offset, inode_num),
            },
    {
        if !self.inode_placeable(inode_num) {
            return Err(KernelError::InvalidInode);
        }
        let mut vnode = Ext2Vnode::new(FileAttributes::default_attributes());
        self.load_inode(&mut vnode, inode_num)?;
        Ok(vnode)
    }

    /// Allocates an inode (looking first in the group of inode `start_from`), writes a new
    /// inode with the given mode and owner into it, and returns its number and vnode.
    pub fn alloc_inode(&mut self, start_from: u32, access: FileAccess, uid: u16, gid: u16)
        -> (r: Result<(u32, Ext2Vnode), KernelError>)
        requires
            old(self).wf(),
        ensures
            final(self).wf(),
            final(self).superblock.block_size == old(self).superblock.block_size,
            !alloc_inode_ready(old(self).superblock, old(self).store@, start_from)
                ==> (r matches Err(e) && e == KernelError::OutOfDiskSpace && final(self).store@ == old(self).store@),
            alloc_inode_ready(old(self).superblock, old(self).store@, start_from)
                ==> alloc_inode_result(*old(self), *final(self), start_from, r),
            match r {
                Ok((n, v)) => {
                    &&& n >= 1
                    &&& v.wf()
                    &&& v.attrs.inode == n
                    &&& v.attrs.access == access && v.attrs.uid == uid && v.attrs.gid == gid
                    &&& v.attrs.size == 0 && v.attrs.nlinks == 1
                    &&& v.blocks@ == Seq::new(EXT2_INODE_BLOCK_ENTRIES as nat, |i: int| 0u32)
                },
                Err(_) => true,
            },
    {
        let ghost before = *self;
        let n = self.superblock.try_alloc_inode(&mut self.store, start_from)?;
        proof { lemma_alloc_keeps_inode_places(before.superblock, self.superblock); }
        if n == 0 || !self.inode_placeable(n) {
            return Err(KernelError::InvalidInode);
        }
        let mut vnode = Ext2Vnode::new(FileAttributes::new(access, uid, gid));
        vnode.attrs.inode = n;
        self.store_inode(&vnode, n)?;
        Ok((n, vnode))
    }
}

/// What allocating an inode from the group of inode `start_from` gives, when the allocation
/// can run: the error of the search with nothing changed; or, the bit of inode `num` being
/// set in the bitmap, `InvalidInode` where `num` is zero or its place lies outside a block,
/// the error of locating it or reading its block, or else `num`, its new inode being written
/// into its block of the inode table.
pub open spec fn alloc_inode_result(before: Ext2Mount, after: Ext2Mount, start_from: u32,
    r: Result<(u32, Ext2Vnode), KernelError>) -> bool
{
    match spec_alloc_item(before.superblock, before.store@,
        (start_from as int) / (before.superblock.inodes_per_group as int), true) {
        Err(e) => r == Err::<(u32, Ext2Vnode), KernelError>(e) && after.store@ == before.store@,
        Ok((g, n, bitmap)) => {
            let num = (n + 1) as u32;
            let marked = before.store@.set_block(before.superblock.groups@[g].inode_bitmap as int, bitmap);
            if num == 0 || !before.inode_in_block(num) {
                r == Err::<(u32, Ext2Vnode), KernelError>(KernelError::InvalidInode) && after.store@ == marked
            } else {
                match before.superblock.spec_inode_entry_location(num) {
                    Err(e) => r == Err::<(u32, Ext2Vnode), KernelError>(e) && after.store@ == marked,
                    Ok((block, offset)) => if !marked.has_block(block) {
                        r == Err::<(u32, Ext2Vnode), KernelError>(KernelError::IOError) && after.store@ == marked
                    } else {
                        let t = after.store@.block(block);
                        &&& r matches Ok((m, v)) && m == num && inode_written(t, marked.block(block), offset, v)
                        &&& after.store@ == marked.set_block(block, t)
                    },
                }
            }
        },
    }
}

/// Allocating an inode moves no inode: the group table keeps its inode tables and the
/// superblock its layout.
proof fn lemma_alloc_keeps_inode_places(before: Ext2SuperBlock, after: Ext2SuperBlock)
    requires
        before.wf(),
        same_layout(after, before),
        after.groups@.len() == before.groups@.len(),
        forall|i: int| 0 <= i < before.groups@.len() ==>
            (#[trigger] after.groups@[i]).inode_table == before.groups@[i].inode_table,
    ensures
        forall|num: u32| num >= 1 ==> #[trigger] after.spec_inode_entry_location(num) == before.spec_inode_entry_location(num),
        forall|num: u32| num >= 1 ==> #[trigger] after.inode_entry_computable(num) == before.inode_entry_computable(num),
{
    assert forall|num: u32| num >= 1 implies #[trigger] after.spec_inode_entry_location(num) == before.spec_inode_entry_location(num) by {
        if let Ok((grp, _)) = before.spec_inode_group_and_offset(num) {
            vstd::arithmetic::div_mod::lemma_div_pos_is_pos(num - 1, before.inodes_per_group as int);
            assert(after.groups@[grp].inode_table == before.groups@[grp].inode_table);
        }
    }
    assert forall|num: u32| num >= 1 implies #[trigger] after.inode_entry_computable(num) == before.inode_entry_computable(num) by {
        assert(after.spec_inode_entry_location(num) == before.spec_inode_entry_location(num));
    }
}

impl Ext2Mount {
    /// Mounts the ext2 filesystem on the device: reads its superblock and group descriptors
    /// and reads the device in the filesystem's blocks.
    pub fn create_mount(device_id: DeviceID, store: BlockStore) -> (r: Result<Ext2Mount, KernelError>)
        requires
            store@.wf(),
            load_safe(store@.data),
        ensures
            ({
                let first = BlockStoreView { block_size: 1024, data: store@.data };
                match first.read(1) {
                    Err(e) => r matches Err(e2) && e2 == e,
                    Ok(bytes) => match spec_superblock_error(bytes) {
                        Some(e) => r matches Err(e2) && e2 == e,
                        None => {
                            let block_size = spec_size_from_log(spec_read_le32(bytes, SB_LOG_BLOCK_SIZE as int));
                            let second = BlockStoreView { block_size: block_size as nat, data: store@.data };
                            match second.read(spec_read_le32(bytes, SB_SUPERBLOCK_BLOCK as int) + 1) {
                                Err(e) => r matches Err(e2) && e2 == e,
                                Ok(table) => r matches Ok(m) && m.device_id == device_id && m.store@.data == store@.data
                                    && m.store@.block_size == block_size
                                    && m.store@.block_size == m.superblock.block_size
                                    && superblock_matches(m.superblock, device_id, bytes)
                                    && m.superblock.groups@ == Seq::new(m.superblock.total_block_groups as nat,
                                        |i: int| spec_group_at(table, i)),
                            }
                        },
                    },
                }
            }),
    {
        let mut store = store;
        let superblock = Ext2SuperBlock::load(device_id, &mut store)?;
        Ok(Ext2Mount { device_id, superblock, store })
    }

    /// Writes the superblock's counts and the group descriptors back to the device.
    pub fn sync(&mut self) -> (r: Result<(), KernelError>)
        requires
            old(self).wf(),
            old(self).superblock.block_size >= SB_SIZE,
            old(self).superblock.superblock_block < u32::MAX,
            old(self).superblock.groups@.len() * EXT2_GROUP_DESCRIPTOR_SIZE <= old(self).superblock.block_size,
        ensures
            final(self).wf(),
            final(self).superblock == old(self).superblock,
            final(self).device_id == old(self).device_id,
            r is Ok <==> old(self).store@.has_block(spec_superblock_block_num(old(self).store@.block_size))
                && old(self).store@.has_block(old(self).superblock.superblock_block + 1),
            r is Ok ==> (final(self).store@.read(old(self).superblock.superblock_block + 1) matches Ok(t)
                && forall|i: int| 0 <= i < old(self).superblock.groups@.len()
                    ==> #[trigger] spec_group_at(t, i) == old(self).superblock.groups@[i]),
    {
        self.superblock.store(&mut self.store)
    }
}

} // verus!
