use vstd::prelude::*;

use crate::errors::KernelError;
use crate::block::{BlockStoreView, lemma_block_bounds, lemma_read_after_write};
use crate::fs::types::{FilePointer, Seek};
use super::inodes::{Ext2Vnode, Ext2Mount, EXT2_INODE_DIRECT_BLOCKS, EXT2_INODE_BLOCK_ENTRIES, inode_written};
use super::blocks::{GetFileBlockOp, spec_file_block, spec_file_block_alloc, lemma_file_block_alloc_layout,
    file_alloc_apart, lemma_file_alloc_readback, lemma_file_block_alloc_store, tables_indexable};
use super::directory_proofs::{file_block_reads, lemma_file_block_frame};
use super::directories::{dirs_usable, new_block_ready};
use super::superblock::{Ext2SuperBlock, AllocState, alloc_state, same_layout, spec_alloc_item, alloc_block_ready};

verus! {

/// The byte at position `p` of a file with the given block pointers: the byte of its block,
/// zero where the file has no block there, or the error met on the way to the block.
pub open spec fn spec_file_byte(store: BlockStoreView, blocks: Seq<u32>, bs: int, p: int) -> Result<u8, KernelError> {
    match spec_file_block(store, blocks, bs, p / bs) {
        Err(e) => Err(e),
        Ok(None) => Ok(0u8),
        Ok(Some(b)) => match store.read(b as int) {
            Err(e) => Err(e),
            Ok(bytes) => Ok(bytes[p % bs]),
        },
    }
}

/// A position at byte `zpos` of block `znum` lies in that block.
proof fn lemma_position_in_block(p: int, bs: int, znum: int, zpos: int)
    requires
        bs > 0,
        0 <= zpos < bs,
        p == znum * bs + zpos,
    ensures
        p / bs == znum,
        p % bs == zpos,
{
    vstd::arithmetic::div_mod::lemma_fundamental_div_mod_converse(p, bs, znum, zpos);
}

/// Every block that bytes `position .. position + nbytes` of a file fall in is one of its
/// direct blocks, which the file has and the device holds.
pub open spec fn direct_range_held(store: BlockStoreView, blocks: Seq<u32>, bs: int, position: int, nbytes: int) -> bool {
    forall|z: int| position / bs <= z <= (position + nbytes - 1) / bs ==>
        z < EXT2_INODE_DIRECT_BLOCKS && #[trigger] blocks[z] != 0 && store.has_block(blocks[z] as int)
}

/// No two of the blocks that bytes `position .. position + nbytes` of a file fall in are the
/// same block of the device.
pub open spec fn direct_range_distinct(blocks: Seq<u32>, bs: int, position: int, nbytes: int) -> bool {
    forall|z1: int, z2: int| position / bs <= z1 <= (position + nbytes - 1) / bs
        && position / bs <= z2 <= (position + nbytes - 1) / bs && z1 != z2
        ==> #[trigger] blocks[z1] != #[trigger] blocks[z2]
}

/// Bytes `position .. position + nbytes` of a file lie in one block, one of its direct blocks.
pub open spec fn one_direct_block(bs: int, position: int, nbytes: int) -> bool {
    &&& position / bs == (position + nbytes - 1) / bs
    &&& position / bs < EXT2_INODE_DIRECT_BLOCKS
}

/// The block `z` that holds byte `offset` of a write lies in the range of the write.
proof fn lemma_block_of_position(position: int, nbytes: int, offset: int, bs: int, z: int, zpos: int)
    requires
        bs > 0,
        0 <= position,
        0 <= offset < nbytes,
        0 <= zpos < bs,
        z * bs + zpos == position + offset,
    ensures
        position / bs <= z <= (position + nbytes - 1) / bs,
        z == (position + offset) / bs,
{
    vstd::arithmetic::div_mod::lemma_fundamental_div_mod_converse(position + offset, bs, z, zpos);
    vstd::arithmetic::div_mod::lemma_div_is_ordered(position, position + offset, bs);
    vstd::arithmetic::div_mod::lemma_div_is_ordered(position + offset, position + nbytes - 1, bs);
}

/// A byte written before the block at hand lies in an earlier block of the write.
proof fn lemma_earlier_position(position: int, offset: int, bs: int, z: int, zpos: int, p: int)
    requires
        bs > 0,
        0 <= position <= p < position + offset,
        0 <= zpos < bs,
        z * bs + zpos == position + offset,
        offset > 0 ==> zpos == 0,
    ensures
        p / bs < z,
        0 <= p % bs < bs,
        (p / bs) * bs + p % bs == p,
{
    vstd::arithmetic::div_mod::lemma_fundamental_div_mod(p, bs);
    vstd::arithmetic::div_mod::lemma_mod_bound(p, bs);
    if p / bs >= z {
        assert((p / bs) * bs >= z * bs) by (nonlinear_arith) requires p / bs >= z, bs > 0;
    }
    assert(bs * (p / bs) == (p / bs) * bs) by (nonlinear_arith);
}

impl Ext2Vnode {
    /// Reads `nbytes` bytes of the file from `position` into the start of `buffer`; a part of
    /// the file without a block reads as zeroes.
    pub fn read_from_vnode(&mut self, mount: &mut Ext2Mount, buffer: &mut Vec<u8>, nbytes: usize, position: usize)
        -> (r: Result<usize, KernelError>)
        requires
            dirs_usable(old(mount)),
            old(self).wf(),
            nbytes <= old(buffer)@.len(),
            position + nbytes <= usize::MAX,
        ensures
            *final(mount) == *old(mount),
            *final(self) == *old(self),
            final(buffer)@.len() == old(buffer)@.len(),
            forall|i: int| nbytes <= i < old(buffer)@.len() ==> final(buffer)@[i] == old(buffer)@[i],
            match r {
                Ok(n) => n == nbytes && forall|i: int| 0 <= i < nbytes ==>
                    spec_file_byte(old(mount).store@, old(self).blocks@, old(mount).superblock.block_size as int, position + i)
                        == Ok::<u8, KernelError>(final(buffer)@[i]),
                Err(e) => exists|p: int| position <= p < position + nbytes &&
                    #[trigger] spec_file_byte(old(mount).store@, old(self).blocks@, old(mount).superblock.block_size as int, p)
                        == Err::<u8, KernelError>(e),
            },
    {
        let block_size = mount.superblock.get_block_size();
        let ghost store0 = mount.store@;
        let ghost blocks0 = self.blocks@;
        let ghost bs = block_size as int;
        let ghost buf0 = buffer@;
        let mut offset: usize = 0;
        let mut remaining: usize = nbytes;
        let mut znum: usize = position / block_size;
        let mut zpos: usize = position % block_size;
        proof { vstd::arithmetic::div_mod::lemma_fundamental_div_mod(position as int, bs); }
        assert(position == znum * bs + zpos) by (nonlinear_arith)
            requires position == bs * znum + zpos;
        while remaining > 0
            invariant
                dirs_usable(mount),
                *mount == *old(mount),
                *self == *old(self),
                store0 == old(mount).store@,
                blocks0 == old(self).blocks@,
                mount.store@ == store0,
                self.blocks@ == blocks0,
                self.wf(),
                mount.superblock.block_size == block_size,
                bs == block_size as int,
                buf0 == old(buffer)@,
                buffer@.len() == buf0.len(),
                nbytes <= buf0.len(),
                position + nbytes <= usize::MAX,
                offset + remaining == nbytes,
                0 <= zpos < block_size,
                remaining > 0 ==> znum * bs + zpos == position + offset,
                forall|i: int| nbytes <= i < buf0.len() ==> buffer@[i] == buf0[i],
                forall|i: int| 0 <= i < offset ==>
                    spec_file_byte(store0, blocks0, bs, position + i) == Ok::<u8, KernelError>(#[trigger] buffer@[i]),
            decreases remaining,
        {
            proof { lemma_position_in_block((position + offset) as int, bs, znum as int, zpos as int); }
            let found = match self.get_file_block_num(mount, znum, GetFileBlockOp::Lookup) {
                Err(e) => {
                    assert(spec_file_byte(store0, blocks0, bs, position + offset) == Err::<u8, KernelError>(e));
                    return Err(e);
                },
                Ok(found) => found,
            };
            let zlen = if block_size - zpos <= remaining { block_size - zpos } else { remaining };
            let ghost before = buffer@;
            match found {
                None => {
                    let mut j: usize = 0;
                    while j < zlen
                        invariant
                            0 <= j <= zlen,
                            zpos + zlen <= block_size,
                            offset + zlen <= nbytes,
                            nbytes <= buffer@.len(),
                            buffer@.len() == before.len(),
                            bs == block_size as int,
                            znum * bs + zpos == position + offset,
                            spec_file_block(store0, blocks0, bs, znum as int) == Ok::<Option<u32>, KernelError>(None),
                            forall|i: int| 0 <= i < buffer@.len() && !(offset <= i < offset + j) ==> buffer@[i] == before[i],
                            forall|i: int| offset <= i < offset + j ==>
                                spec_file_byte(store0, blocks0, bs, position + i) == Ok::<u8, KernelError>(#[trigger] buffer@[i]),
                        decreases zlen - j,
                    {
                        proof { lemma_position_in_block(position + offset + j, bs, znum as int, zpos + j); }
                        buffer.set(offset + j, 0);
                        j += 1;
                    }
                },
                Some(block_num) => {
                    let bytes = match mount.store.read_block(block_num) {
                        Err(e) => {
                            assert(spec_file_byte(store0, blocks0, bs, position + offset) == Err::<u8, KernelError>(e));
                            return Err(e);
                        },
                        Ok(bytes) => bytes,
                    };
                    proof { lemma_block_bounds(mount.store@, block_num as int); }
                    let mut j: usize = 0;
                    while j < zlen
                        invariant
                            0 <= j <= zlen,
                            zpos + zlen <= block_size,
                            bytes@.len() == block_size,
                            offset + zlen <= nbytes,
                            nbytes <= buffer@.len(),
                            buffer@.len() == before.len(),
                            bs == block_size as int,
                            znum * bs + zpos == position + offset,
                            spec_file_block(store0, blocks0, bs, znum as int) == Ok::<Option<u32>, KernelError>(Some(block_num)),
                            store0.read(block_num as int) == Ok::<Seq<u8>, KernelError>(bytes@),
                            forall|i: int| 0 <= i < buffer@.len() && !(offset <= i < offset + j) ==> buffer@[i] == before[i],
                            forall|i: int| offset <= i < offset + j ==>
                                spec_file_byte(store0, blocks0, bs, position + i) == Ok::<u8, KernelError>(#[trigger] buffer@[i]),
                        decreases zlen - j,
                    {
                        proof { lemma_position_in_block(position + offset + j, bs, znum as int, zpos + j); }
                        buffer.set(offset + j, bytes[zpos + j]);
                        j += 1;
                    }
                },
            }
            assert forall|i: int| 0 <= i < offset + zlen implies
                spec_file_byte(store0, blocks0, bs, position + i) == Ok::<u8, KernelError>(#[trigger] buffer@[i]) by {
                if i < offset {
                    assert(buffer@[i] == before[i]);
                }
            }
            offset = offset + zlen;
            remaining = remaining - zlen;
            if remaining > 0 {
                assert(zpos + zlen == block_size);
                assert((znum + 1) * bs == znum * bs + bs) by (nonlinear_arith);
                assert(znum + 1 <= usize::MAX) by (nonlinear_arith)
                    requires (znum + 1) * bs <= usize::MAX, bs >= 8;
                znum = znum + 1;
                zpos = 0;
            }
        }
        Ok(offset)
    }
}

/// The bytes of a block after bytes `offset .. offset + len` of `buf` went into it from `zpos`.
pub open spec fn spec_fill_block(bytes: Seq<u8>, zpos: int, buf: Seq<u8>, offset: int, len: int) -> Seq<u8> {
    Seq::new(bytes.len(), |k: int| if zpos <= k < zpos + len { buf[offset + (k - zpos)] } else { bytes[k] })
}

/// Writing bytes `offset .. nbytes` of `buf` into a file from `position` on, block by block,
/// each missing block being allocated (with its block tables) before it is written: the error
/// that stopped the write, the allocation state and the block pointers afterwards.
pub open spec fn spec_write_blocks(sb: Ext2SuperBlock, st: AllocState, blocks: Seq<u32>, inode: u32, buf: Seq<u8>,
    position: int, offset: int, nbytes: int) -> (Result<(), KernelError>, AllocState, Seq<u32>)
    decreases nbytes - offset,
{
    let bs = sb.block_size as int;
    if offset >= nbytes || bs <= 0 || position + offset < 0 {
        (Ok(()), st, blocks)
    } else {
        let p = position + offset;
        let zpos = p % bs;
        let zlen = if bs - zpos <= nbytes - offset { bs - zpos } else { nbytes - offset };
        let (r, st1, blocks1) = spec_file_block_alloc(sb, st, blocks, inode, p / bs);
        if zlen <= 0 {
            (Ok(()), st1, blocks1)
        } else {
            match r {
                Err(e) => (Err(e), st1, blocks1),
                Ok(None) => (Err(KernelError::IOError), st1, blocks1),
                Ok(Some(b)) => match st1.store.read(b as int) {
                    Err(e) => (Err(e), st1, blocks1),
                    Ok(bytes) => spec_write_blocks(sb, AllocState {
                            store: st1.store.set_block(b as int, spec_fill_block(bytes, zpos, buf, offset, zlen)), ..st1 },
                        blocks1, inode, buf, position, offset + zlen, nbytes),
                },
            }
        }
    }
}

/// The blocks that a write from `offset` on allocates and writes keep apart: each block's
/// allocation leaves the tables above as they were, its own block is none of its block tables,
/// and the rest of the write neither rewrites that block nor moves where it lies.
#[verifier::opaque]
pub open spec fn write_apart(sb: Ext2SuperBlock, st: AllocState, blocks: Seq<u32>, inode: u32, buf: Seq<u8>,
    position: int, offset: int, nbytes: int) -> bool
    decreases nbytes - offset,
{
    let bs = sb.block_size as int;
    if offset >= nbytes || bs <= 0 || position + offset < 0 {
        true
    } else {
        let p = position + offset;
        let zpos = p % bs;
        let zlen = if bs - zpos <= nbytes - offset { bs - zpos } else { nbytes - offset };
        let (r, st1, blocks1) = spec_file_block_alloc(sb, st, blocks, inode, p / bs);
        if zlen <= 0 {
            true
        } else {
            match r {
                Ok(Some(b)) => match st1.store.read(b as int) {
                    Ok(bytes) => {
                        let st2 = AllocState {
                            store: st1.store.set_block(b as int, spec_fill_block(bytes, zpos, buf, offset, zlen)), ..st1 };
                        let rest = spec_write_blocks(sb, st2, blocks1, inode, buf, position, offset + zlen, nbytes);
                        &&& file_alloc_apart(sb, st, blocks, inode, p / bs)
                        &&& !file_block_reads(st1.store, blocks1, bs, p / bs, b)
                        &&& rest.1.store.read(b as int) == st2.store.read(b as int)
                        &&& spec_file_block(rest.1.store, rest.2, bs, p / bs) == spec_file_block(st2.store, blocks1, bs, p / bs)
                        &&& write_apart(sb, st2, blocks1, inode, buf, position, offset + zlen, nbytes)
                    },
                    Err(_) => true,
                },
                _ => true,
            }
        }
    }
}

/// Where the blocks of a write keep apart, every byte written reads back from the file.
pub proof fn lemma_write_readback(sb: Ext2SuperBlock, st: AllocState, blocks: Seq<u32>, inode: u32, buf: Seq<u8>,
    position: int, offset: int, nbytes: int)
    requires
        st.store.wf(),
        st.store.block_size == sb.block_size,
        tables_indexable(sb.block_size as int),
        blocks.len() == EXT2_INODE_BLOCK_ENTRIES,
        0 <= position,
        0 <= offset,
        nbytes <= buf.len(),
        write_apart(sb, st, blocks, inode, buf, position, offset, nbytes),
        spec_write_blocks(sb, st, blocks, inode, buf, position, offset, nbytes).0 is Ok,
    ensures
        ({
            let w = spec_write_blocks(sb, st, blocks, inode, buf, position, offset, nbytes);
            forall|q: int| position + offset <= q < position + nbytes ==>
                #[trigger] spec_file_byte(w.1.store, w.2, sb.block_size as int, q) == Ok::<u8, KernelError>(buf[q - position])
        }),
    decreases nbytes - offset,
{
    reveal(write_apart);
    let bs = sb.block_size as int;
    if offset < nbytes {
        let p = position + offset;
        let znum = p / bs;
        let zpos = p % bs;
        vstd::arithmetic::div_mod::lemma_fundamental_div_mod(p, bs);
        vstd::arithmetic::div_mod::lemma_mod_bound(p, bs);
        vstd::arithmetic::div_mod::lemma_div_pos_is_pos(p, bs);
        let zlen = if bs - zpos <= nbytes - offset { bs - zpos } else { nbytes - offset };
        assert(p == znum * bs + zpos) by (nonlinear_arith) requires p == bs * (p / bs) + p % bs, znum == p / bs, zpos == p % bs;
        let a = spec_file_block_alloc(sb, st, blocks, inode, znum);
        let (r, st1, blocks1) = a;
        lemma_file_block_alloc_store(sb, st, blocks, inode, znum);
        if let Ok(Some(b)) = r {
            if let Ok(bytes) = st1.store.read(b as int) {
                lemma_block_bounds(st1.store, b as int);
                let fill = spec_fill_block(bytes, zpos, buf, offset, zlen);
                let st2 = AllocState { store: st1.store.set_block(b as int, fill), ..st1 };
                let w = spec_write_blocks(sb, st2, blocks1, inode, buf, position, offset + zlen, nbytes);
                lemma_file_alloc_readback(sb, st, blocks, inode, znum);
                lemma_file_block_frame(st1.store, b, fill, blocks1, bs, znum);
                lemma_read_after_write(st1.store, b as int, b as int, fill);
                assert(st2.store.wf() && st2.store.block_size == sb.block_size);
                assert(zlen > 0);
                assert(spec_write_blocks(sb, st, blocks, inode, buf, position, offset, nbytes) == w);
                lemma_write_readback(sb, st2, blocks1, inode, buf, position, offset + zlen, nbytes);
                assert forall|q: int| position + offset <= q < position + nbytes implies
                    #[trigger] spec_file_byte(w.1.store, w.2, bs, q) == Ok::<u8, KernelError>(buf[q - position]) by {
                    if q < position + offset + zlen {
                        lemma_position_in_block(q, bs, znum, zpos + (q - p));
                    }
                }
            }
        }
    }
}

impl Ext2Vnode {
    /// Writes the first `nbytes` bytes of `buffer` into the file from `position`, allocating
    /// the blocks that the file lacks.
    #[verifier::spinoff_prover]
    #[verifier::rlimit(100)]
    pub fn write_to_vnode(&mut self, mount: &mut Ext2Mount, buffer: &[u8], nbytes: usize, position: usize)
        -> (r: Result<usize, KernelError>)
        requires
            dirs_usable(old(mount)),
            old(self).wf(),
            nbytes <= buffer@.len(),
            position + nbytes <= usize::MAX,
        ensures
            dirs_usable(final(mount)),
            final(self).wf(),
            final(self).attrs == old(self).attrs,
            final(self).freed == old(self).freed,
            final(mount).superblock.block_size == old(mount).superblock.block_size,
            r is Ok ==> r == Ok::<usize, KernelError>(nbytes),
            nbytes == 0 ==> r == Ok::<usize, KernelError>(0) && *final(mount) == *old(mount) && *final(self) == *old(self),
            nbytes > 0 && direct_range_held(old(mount).store@, old(self).blocks@,
                old(mount).superblock.block_size as int, position as int, nbytes as int) ==> {
                &&& r == Ok::<usize, KernelError>(nbytes)
                &&& final(self).blocks@ == old(self).blocks@
                &&& direct_range_distinct(old(self).blocks@, old(mount).superblock.block_size as int,
                        position as int, nbytes as int)
                    ==> forall|p: int| position <= p < position + nbytes ==>
                        #[trigger] spec_file_byte(final(mount).store@, final(self).blocks@,
                            old(mount).superblock.block_size as int, p) == Ok::<u8, KernelError>(buffer@[p - position])
            },
            ({
                let w = spec_write_blocks(old(mount).superblock, alloc_state(old(mount).superblock, old(mount).store@),
                    old(self).blocks@, old(self).attrs.inode, buffer@, position as int, 0, nbytes as int);
                &&& (r is Ok <==> w.0 is Ok)
                &&& match w.0 {
                    Err(e) => r == Err::<usize, KernelError>(e),
                    Ok(_) => r == Ok::<usize, KernelError>(nbytes),
                }
                &&& alloc_state(final(mount).superblock, final(mount).store@) == w.1
                &&& final(self).blocks@ == w.2
            }),
            r is Ok && write_apart(old(mount).superblock, alloc_state(old(mount).superblock, old(mount).store@),
                old(self).blocks@, old(self).attrs.inode, buffer@, position as int, 0, nbytes as int)
                ==> forall|q: int| position <= q < position + nbytes ==> #[trigger] spec_file_byte(final(mount).store@,
                    final(self).blocks@, old(mount).superblock.block_size as int, q) == Ok::<u8, KernelError>(buffer@[q - position]),
            nbytes > 0 && one_direct_block(old(mount).superblock.block_size as int, position as int, nbytes as int) ==> {
                let z = position as int / (old(mount).superblock.block_size as int);
                &&& (r is Ok <==> new_block_ready(old(mount).superblock, old(mount).store@, old(self).blocks@,
                    old(self).attrs.inode, z))
                &&& r is Ok ==> {
                    &&& final(self).blocks@ == old(self).blocks@.update(z, final(self).blocks@[z])
                    &&& old(self).blocks@[z] != 0 ==> final(self).blocks@[z] == old(self).blocks@[z]
                    &&& final(self).blocks@[z] != 0 ==> forall|p: int| position <= p < position + nbytes ==>
                        #[trigger] spec_file_byte(final(mount).store@, final(self).blocks@,
                            old(mount).superblock.block_size as int, p) == Ok::<u8, KernelError>(buffer@[p - position])
                }
            },
    {
        let block_size = mount.superblock.get_block_size();
        let ghost bs = block_size as int;
        let ghost blocks0 = self.blocks@;
        let ghost store0 = mount.store@;
        let ghost held = nbytes > 0 && direct_range_held(store0, blocks0, bs, position as int, nbytes as int);
        let ghost distinct = direct_range_distinct(blocks0, bs, position as int, nbytes as int);
        let ghost single = nbytes > 0 && one_direct_block(bs, position as int, nbytes as int);
        let ghost z0 = position as int / bs;
        let ghost sb0 = old(mount).superblock;
        let ghost inode0 = old(self).attrs.inode;
        let ghost wtotal = spec_write_blocks(sb0, alloc_state(sb0, store0), blocks0, inode0, buffer@, position as int,
            0, nbytes as int);
        proof {
            if write_apart(sb0, alloc_state(sb0, store0), blocks0, inode0, buffer@, position as int, 0, nbytes as int)
                && wtotal.0 is Ok {
                lemma_write_readback(sb0, alloc_state(sb0, store0), blocks0, inode0, buffer@, position as int, 0,
                    nbytes as int);
            }
        }
        let mut offset: usize = 0;
        let mut remaining: usize = nbytes;
        let mut znum: usize = position / block_size;
        let mut zpos: usize = position % block_size;
        proof { vstd::arithmetic::div_mod::lemma_fundamental_div_mod(position as int, bs); }
        assert(position == znum * bs + zpos) by (nonlinear_arith)
            requires position == bs * znum + zpos;
        while remaining > 0
            invariant
                dirs_usable(mount),
                self.wf(),
                self.attrs == old(self).attrs,
                self.freed == old(self).freed,
                mount.superblock.block_size == block_size,
                old(mount).superblock.block_size == block_size,
                bs == block_size as int,
                nbytes <= buffer@.len(),
                position + nbytes <= usize::MAX,
                offset + remaining == nbytes,
                0 <= zpos < block_size,
                remaining > 0 ==> znum * bs + zpos == position + offset,
                remaining > 0 && offset > 0 ==> zpos == 0,
                blocks0 == old(self).blocks@,
                store0 == old(mount).store@,
                held == (nbytes > 0 && direct_range_held(store0, blocks0, bs, position as int, nbytes as int)),
                distinct == direct_range_distinct(blocks0, bs, position as int, nbytes as int),
                nbytes == 0 ==> *mount == *old(mount) && *self == *old(self),
                held ==> self.blocks@ == blocks0 && mount.store@.data.len() == store0.data.len()
                    && mount.store@.block_size == store0.block_size,
                held && distinct ==> forall|p: int| position <= p < position + offset ==>
                    #[trigger] spec_file_byte(mount.store@, blocks0, bs, p) == Ok::<u8, KernelError>(buffer@[p - position]),
                single == (nbytes > 0 && one_direct_block(bs, position as int, nbytes as int)),
                z0 == position as int / bs,
                sb0 == old(mount).superblock,
                inode0 == old(self).attrs.inode,
                single && offset == 0 ==> *mount == *old(mount) && *self == *old(self) && znum == z0,
                same_layout(mount.superblock, sb0),
                wtotal == spec_write_blocks(sb0, alloc_state(sb0, store0), blocks0, inode0, buffer@, position as int,
                    0, nbytes as int),
                spec_write_blocks(sb0, alloc_state(mount.superblock, mount.store@), self.blocks@, inode0, buffer@,
                    position as int, offset as int, nbytes as int) == wtotal,
                single && offset > 0 ==> {
                    &&& remaining == 0
                    &&& new_block_ready(sb0, store0, blocks0, inode0, z0)
                    &&& self.blocks@ == blocks0.update(z0, self.blocks@[z0])
                    &&& blocks0[z0] != 0 ==> self.blocks@[z0] == blocks0[z0]
                    &&& self.blocks@[z0] != 0 ==> forall|p: int| position <= p < position + offset ==>
                        #[trigger] spec_file_byte(mount.store@, self.blocks@, bs, p) == Ok::<u8, KernelError>(buffer@[p - position])
                },
            decreases remaining,
        {
            let ghost z = znum as int;
            proof {
                if held {
                    lemma_block_of_position(position as int, nbytes as int, offset as int, bs, z, zpos as int);
                    assert(blocks0[z] != 0 && store0.has_block(blocks0[z] as int));
                }
            }
            let ghost mount1 = *mount;
            let ghost blocks1 = self.blocks@;
            let found_r = self.get_file_block_num(mount, znum, GetFileBlockOp::Allocate);
            proof {
                lemma_position_in_block(position + offset, bs, znum as int, zpos as int);
                lemma_file_block_alloc_layout(mount1.superblock, sb0, alloc_state(mount1.superblock, mount1.store@),
                    blocks1, inode0, znum as int);
                let w_now = spec_write_blocks(sb0, alloc_state(mount1.superblock, mount1.store@), blocks1, inode0,
                    buffer@, position as int, offset as int, nbytes as int);
                let a = spec_file_block_alloc(sb0, alloc_state(mount1.superblock, mount1.store@), blocks1, inode0,
                    znum as int);
                assert((position + offset) / bs == znum && (position + offset) % bs == zpos);
                assert(w_now == wtotal);
                assert(a.1 == alloc_state(mount.superblock, mount.store@));
                assert(a.2 == self.blocks@);
                if let Err(e) = found_r {
                    assert(a.0 == Err::<Option<u32>, KernelError>(e));
                    assert(w_now == (Err::<(), KernelError>(e), a.1, a.2));
                }
            }
            let found = found_r?;
            let block_num = found.unwrap();
            proof {
                if single && offset == 0 && blocks0[z0] == 0 {
                    if let Ok((g, n, bitmap)) = spec_alloc_item(sb0, store0, (inode0 as int) / (sb0.inodes_per_group as int), false) {
                        let marked = store0.set_block(sb0.groups@[g].block_bitmap as int, bitmap);
                        if alloc_block_ready(sb0, store0, inode0) && marked.has_block(n as u32 as int) {
                            lemma_read_after_write(marked, n as u32 as int, n as u32 as int,
                                Seq::new(marked.block_size, |i: int| 0u8));
                        }
                    }
                }
                if single && offset == 0 {
                    vstd::arithmetic::div_mod::lemma_fundamental_div_mod((position + nbytes - 1) as int, bs);
                    vstd::arithmetic::div_mod::lemma_mod_bound((position + nbytes - 1) as int, bs);
                    assert(nbytes <= block_size - zpos) by (nonlinear_arith)
                        requires position == znum * bs + zpos, z0 == znum,
                            position + nbytes - 1 == bs * z0 + (position + nbytes - 1) % bs,
                            (position + nbytes - 1) % bs < bs, bs == block_size, nbytes > 0;
                }
            }
            let zlen = if block_size - zpos <= remaining { block_size - zpos } else { remaining };
            let ghost before = mount.store@;
            let bytes_r = mount.store.read_block(block_num);
            proof {
                let a = spec_file_block_alloc(sb0, alloc_state(mount1.superblock, mount1.store@), blocks1, inode0,
                    znum as int);
                if let Err(e) = bytes_r {
                    assert(spec_write_blocks(sb0, alloc_state(mount1.superblock, mount1.store@), blocks1, inode0,
                        buffer@, position as int, offset as int, nbytes as int) == (Err::<(), KernelError>(e), a.1, a.2));
                }
            }
            let mut bytes = bytes_r?;
            proof { lemma_block_bounds(mount.store@, block_num as int); }
            let ghost old_bytes = bytes@;
            let mut j: usize = 0;
            while j < zlen
                invariant
                    0 <= j <= zlen,
                    zpos + zlen <= block_size,
                    bytes@.len() == block_size,
                    old_bytes.len() == block_size,
                    offset + zlen <= nbytes,
                    nbytes <= buffer@.len(),
                    forall|k: int| zpos <= k < zpos + j ==> #[trigger] bytes@[k] == buffer@[offset + (k - zpos)],
                    forall|k: int| 0 <= k < block_size && !(zpos <= k < zpos + j) ==> bytes@[k] == old_bytes[k],
                decreases zlen - j,
            {
                bytes.set(zpos + j, buffer[offset + j]);
                j += 1;
            }
            proof {
                lemma_read_after_write(before, block_num as int, block_num as int, bytes@);
            }
            mount.store.write_block(block_num, &bytes)?;
            proof {
                if held && distinct {
                    assert forall|p: int| position <= p < position + offset + zlen implies
                        #[trigger] spec_file_byte(mount.store@, blocks0, bs, p) == Ok::<u8, KernelError>(buffer@[p - position]) by {
                        if p < position + offset {
                            lemma_earlier_position(position as int, offset as int, bs, z, zpos as int, p);
                            let zp = p / bs;
                            lemma_block_of_position(position as int, nbytes as int, p - position, bs, zp, p % bs);
                            lemma_read_after_write(before, block_num as int, blocks0[zp] as int, bytes@);
                            assert(spec_file_byte(before, blocks0, bs, p) == Ok::<u8, KernelError>(buffer@[p - position]));
                        } else {
                            let k = p - position - offset;
                            lemma_position_in_block(p, bs, z, zpos + k);
                            assert(bytes@[zpos + k] == buffer@[offset + k]);
                        }
                    }
                }
            }
            proof {
                assert(bytes@ =~= spec_fill_block(old_bytes, zpos as int, buffer@, offset as int, zlen as int));
            }
            proof {
                if single && offset == 0 && self.blocks@[z0] != 0 {
                    assert forall|p: int| position <= p < position + zlen implies
                        #[trigger] spec_file_byte(mount.store@, self.blocks@, bs, p) == Ok::<u8, KernelError>(buffer@[p - position]) by {
                        let k = p - position;
                        lemma_position_in_block(p, bs, z, zpos + k);
                        assert(bytes@[zpos + k] == buffer@[offset + k]);
                    }
                }
            }
            offset = offset + zlen;
            remaining = remaining - zlen;
            if remaining > 0 {
                assert((znum + 1) * bs == znum * bs + bs) by (nonlinear_arith);
                assert(znum + 1 <= usize::MAX) by (nonlinear_arith)
                    requires (znum + 1) * bs <= usize::MAX, bs >= 8;
                znum = znum + 1;
                zpos = 0;
            }
        }
        Ok(offset)
    }

    /// Reads from the file at the file pointer into `buffer`, as much as the buffer holds or
    /// the file has left, and moves the pointer past what was read.
    pub fn read(&mut self, mount: &mut Ext2Mount, file: &mut FilePointer, buffer: &mut Vec<u8>) -> (r: Result<usize, KernelError>)
        requires
            dirs_usable(old(mount)),
            old(self).wf(),
            old(file).position <= old(self).attrs.size,
        ensures
            *final(mount) == *old(mount),
            *final(self) == *old(self),
            final(buffer)@.len() == old(buffer)@.len(),
            old(self).attrs.access.spec_is_dir() ==> r == Err::<usize, KernelError>(KernelError::IsADirectory),
            !old(self).attrs.access.spec_is_dir() ==> (r is Ok <==> forall|p: int| old(file).position <= p
                < old(file).position + (if old(buffer)@.len() > old(self).attrs.size - old(file).position {
                    old(self).attrs.size - old(file).position } else { old(buffer)@.len() as int })
                ==> #[trigger] spec_file_byte(old(mount).store@, old(self).blocks@,
                    old(mount).superblock.block_size as int, p) is Ok),
            match r {
                Ok(n) => {
                    &&& !old(self).attrs.access.spec_is_dir()
                    &&& n == if old(buffer)@.len() > old(self).attrs.size - old(file).position {
                        old(self).attrs.size - old(file).position } else { old(buffer)@.len() as int }
                    &&& final(file).position == old(file).position + n
                    &&& forall|i: int| 0 <= i < n ==> spec_file_byte(old(mount).store@, old(self).blocks@,
                        old(mount).superblock.block_size as int, old(file).position + i) == Ok::<u8, KernelError>(final(buffer)@[i])
                },
                Err(_) => final(file).position == old(file).position,
            },
    {
        if self.attrs.access.is_dir() {
            return Err(KernelError::IsADirectory);
        }
        let nbytes = if buffer.len() > self.attrs.size - file.position {
            self.attrs.size - file.position
        } else {
            buffer.len()
        };
        let offset = self.read_from_vnode(mount, buffer, nbytes, file.position)?;
        proof {
            assert forall|p: int| file.position <= p < file.position + nbytes implies
                #[trigger] spec_file_byte(mount.store@, self.blocks@, mount.superblock.block_size as int, p) is Ok by {
                assert(spec_file_byte(mount.store@, self.blocks@, mount.superblock.block_size as int,
                    file.position + (p - file.position)) == Ok::<u8, KernelError>(buffer@[p - file.position]));
            }
        }
        file.position = file.position + offset;
        Ok(offset)
    }

    /// Writes `buffer` into the file at the file pointer, moves the pointer past it, grows the
    /// file's size to the pointer and writes the inode back to disk (unless it was freed).
    pub fn write(&mut self, mount: &mut Ext2Mount, file: &mut FilePointer, buffer: &[u8]) -> (r: Result<usize, KernelError>)
        requires
            dirs_usable(old(mount)),
            old(self).wf(),
            old(self).attrs.inode >= 1,
            old(file).position + buffer@.len() <= usize::MAX,
        ensures
            dirs_usable(final(mount)),
            final(self).wf(),
            final(mount).superblock.block_size == old(mount).superblock.block_size,
            old(self).attrs.access.spec_is_dir() ==> r == Err::<usize, KernelError>(KernelError::IsADirectory)
                && final(file).position == old(file).position && *final(mount) == *old(mount)
                && *final(self) == *old(self),
            !old(self).attrs.access.spec_is_dir() ==> ({
                let w = spec_write_blocks(old(mount).superblock, alloc_state(old(mount).superblock, old(mount).store@),
                    old(self).blocks@, old(self).attrs.inode, buffer@, old(file).position as int, 0, buffer@.len() as int);
                let end = old(file).position + buffer@.len();
                &&& final(self).blocks@ == w.2
                &&& final(mount).superblock.groups@ == w.1.groups
                &&& match w.0 {
                    Err(e) => r == Err::<usize, KernelError>(e),
                    Ok(_) => true,
                }
                &&& w.0 is Err ==> final(file).position == old(file).position
                    && final(mount).store@ == w.1.store && final(self).attrs == old(self).attrs
                &&& w.0 is Ok ==> {
                    &&& final(file).position == end
                    &&& final(self).attrs.size == if end > old(self).attrs.size { end } else { old(self).attrs.size as int }
                    &&& final(self).dirty
                    &&& if old(self).freed {
                        r == Ok::<usize, KernelError>(buffer.len()) && final(mount).store@ == w.1.store
                    } else {
                        match final(mount).superblock.spec_inode_entry_location(old(self).attrs.inode) {
                            Err(e) => r == Err::<usize, KernelError>(e) && final(mount).store@ == w.1.store,
                            Ok((block, offset)) => if !final(mount).inode_in_block(old(self).attrs.inode) {
                                r == Err::<usize, KernelError>(KernelError::InvalidInode) && final(mount).store@ == w.1.store
                            } else {
                                match w.1.store.read(block) {
                                    Err(e) => r == Err::<usize, KernelError>(e) && final(mount).store@ == w.1.store,
                                    Ok(bytes) => {
                                        &&& r == Ok::<usize, KernelError>(buffer.len())
                                        &&& final(mount).store@ == w.1.store.set_block(block, final(mount).store@.block(block))
                                        &&& inode_written(final(mount).store@.block(block), bytes, offset, *final(self))
                                    },
                                }
                            },
                        }
                    }
                }
                &&& (w.0 is Ok && write_apart(old(mount).superblock, alloc_state(old(mount).superblock, old(mount).store@),
                    old(self).blocks@, old(self).attrs.inode, buffer@, old(file).position as int, 0, buffer@.len() as int))
                    ==> forall|q: int| old(file).position <= q < end ==> #[trigger] spec_file_byte(w.1.store, w.2,
                        old(mount).superblock.block_size as int, q) == Ok::<u8, KernelError>(buffer@[q - old(file).position])
            }),
    {
        if self.attrs.access.is_dir() {
            return Err(KernelError::IsADirectory);
        }
        let ghost w = spec_write_blocks(mount.superblock, alloc_state(mount.superblock, mount.store@),
            self.blocks@, self.attrs.inode, buffer@, file.position as int, 0, buffer@.len() as int);
        let ghost apart = write_apart(mount.superblock, alloc_state(mount.superblock, mount.store@),
            self.blocks@, self.attrs.inode, buffer@, file.position as int, 0, buffer@.len() as int);
        let ghost bs = mount.superblock.block_size as int;
        let ghost start = file.position as int;
        let offset = self.write_to_vnode(mount, buffer, buffer.len(), file.position)?;
        assert(mount.store@ == w.1.store);
        assert(self.blocks@ == w.2);
        assert(apart ==> forall|q: int| start <= q < start + buffer@.len() ==> #[trigger] spec_file_byte(w.1.store, w.2,
            bs, q) == Ok::<u8, KernelError>(buffer@[q - start]));
        file.position = file.position + offset;
        if file.position > self.attrs.size {
            self.attrs.size = file.position;
        }
        self.dirty = true;
        if !self.freed && !mount.inode_placeable(self.attrs.inode) {
            return Err(KernelError::InvalidInode);
        }
        self.writeback(mount)?;
        Ok(offset)
    }

    /// Moves the file pointer to `offset` from the start, the pointer or the end of the file,
    /// no further than the end of the file, and returns the new position.
    pub fn seek(&self, file: &mut FilePointer, offset: usize, whence: Seek) -> (r: Result<usize, KernelError>)
        requires
            whence == Seek::FromCurrent ==> old(file).position + offset <= usize::MAX,
            whence == Seek::FromEnd ==> self.attrs.size + offset <= usize::MAX,
        ensures
            ({
                let target = match whence {
                    Seek::FromStart => offset as int,
                    Seek::FromCurrent => old(file).position + offset,
                    Seek::FromEnd => self.attrs.size + offset,
                };
                final(file).position == if target >= self.attrs.size { self.attrs.size as int } else { target }
            }),
            r == Ok::<usize, KernelError>(final(file).position),
    {
        let position = match whence {
            Seek::FromStart => offset,
            Seek::FromCurrent => file.position + offset,
            Seek::FromEnd => self.attrs.size + offset,
        };
        if position >= self.attrs.size {
            file.position = self.attrs.size;
        } else {
            file.position = position;
        }
        Ok(file.position)
    }
}

} // verus!
