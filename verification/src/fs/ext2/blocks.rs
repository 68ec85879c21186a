use vstd::prelude::*;

use crate::errors::KernelError;
use crate::misc::{read_le32, write_le32, spec_read_le32, spec_set_le32};
use crate::block::{BlockStore, BlockStoreView, BlockNum, lemma_read_after_write};
use super::superblock::{Ext2SuperBlock, try_alloc_block_outcome, AllocState, alloc_state, alloc_block_step,
    same_layout, lemma_try_alloc_step, lemma_alloc_step_layout};
use super::inodes::{Ext2Vnode, Ext2Mount, EXT2_INODE_DIRECT_BLOCKS, EXT2_INODE_BLOCK_ENTRIES};

verus! {

/// Whether a lookup of a file's block may allocate the blocks that are missing.
#[derive(Clone, Copy, PartialEq, Eq, Structural, Debug)]
pub enum GetFileBlockOp {
    Lookup,
    Allocate,
}

/// `base` to the power `exp`, for the small powers that the block tables need.
pub open spec fn spec_pow(base: int, exp: int) -> int
    decreases exp,
{
    if exp <= 0 { 1 } else { base * spec_pow(base, exp - 1) }
}

/// The number of levels of block tables between an inode and block `linear` of its file:
/// none for the direct blocks, then one, two or three.
pub open spec fn spec_number_of_tiers(entries_per_block: int, linear: int) -> Result<int, KernelError> {
    let remaining = linear - EXT2_INODE_DIRECT_BLOCKS;
    if linear < EXT2_INODE_DIRECT_BLOCKS {
        Ok(0)
    } else if remaining < entries_per_block {
        Ok(1)
    } else if remaining < entries_per_block * entries_per_block {
        Ok(2)
    } else if remaining < entries_per_block * entries_per_block * entries_per_block {
        Ok(3)
    } else {
        Err(KernelError::FileSizeTooLarge)
    }
}

/// The block found by walking `tiers` levels of block tables from `table` for entry `offset`.
pub open spec fn spec_block_in_tier(store: BlockStoreView, entries_per_block: int, tiers: int, table: u32, offset: int)
    -> Result<Option<u32>, KernelError>
    decreases tiers,
{
    let span = spec_pow(entries_per_block, tiers - 1);
    let index = offset / span;
    match store.read(table as int) {
        Err(e) => Err(e),
        Ok(bytes) => {
            let block = spec_read_le32(bytes, index * 4);
            if block == 0 {
                Ok(None)
            } else if tiers <= 1 {
                Ok(Some(block))
            } else {
                spec_block_in_tier(store, entries_per_block, tiers - 1, block, offset % span)
            }
        },
    }
}

/// The block that holds block `linear` of a file with the given block pointers, if any.
pub open spec fn spec_file_block(store: BlockStoreView, blocks: Seq<u32>, block_size: int, linear: int)
    -> Result<Option<u32>, KernelError>
{
    let epb = block_size / 4;
    match spec_number_of_tiers(epb, linear) {
        Err(e) => Err(e),
        Ok(tiers) => {
            let index = if linear < EXT2_INODE_DIRECT_BLOCKS { linear } else { EXT2_INODE_DIRECT_BLOCKS + tiers - 1 };
            if blocks[index] == 0 {
                Ok(None)
            } else if tiers == 0 {
                Ok(Some(blocks[index]))
            } else {
                spec_block_in_tier(store, epb, tiers, blocks[index], linear - EXT2_INODE_DIRECT_BLOCKS)
            }
        },
    }
}

/// The block tables of the filesystem can be indexed without overflow.
pub open spec fn tables_indexable(block_size: int) -> bool {
    &&& block_size >= 4
    &&& (block_size / 4) * (block_size / 4) * (block_size / 4) <= usize::MAX
}

/// Facts about the powers of the entries per block that the walks need.
pub proof fn lemma_pow_facts(epb: int)
    requires
        epb >= 1,
        epb * epb * epb <= usize::MAX,
    ensures
        spec_pow(epb, 0) == 1,
        spec_pow(epb, 1) == epb,
        spec_pow(epb, 2) == epb * epb,
        spec_pow(epb, 2) <= usize::MAX,
        epb * epb <= epb * epb * epb,
{
    reveal_with_fuel(spec_pow, 3);
    assert(epb * epb <= epb * epb * epb) by (nonlinear_arith) requires epb >= 1;
}

/// Reading entry `index` of block table `table` in the allocation state `st`, allocating a block
/// for the entry when it is empty and `op` asks for allocation: the block, none, or the error,
/// and the state afterwards.
pub open spec fn spec_get_or_alloc(sb: Ext2SuperBlock, st: AllocState, table: u32, index: int, op: GetFileBlockOp,
    inode: u32) -> (Result<Option<u32>, KernelError>, AllocState)
{
    match st.store.read(table as int) {
        Err(e) => (Err(e), st),
        Ok(bytes) => {
            let block = spec_read_le32(bytes, index * 4);
            if block != 0 {
                (Ok(Some(block)), st)
            } else if op == GetFileBlockOp::Lookup {
                (Ok(None), st)
            } else {
                let (a, st2) = alloc_block_step(sb, st, inode);
                match a {
                    Err(e) => (Err(e), st2),
                    Ok(nb) => match st2.store.read(table as int) {
                        Err(e) => (Err(e), st2),
                        Ok(tb) => (Ok(Some(nb)), AllocState {
                            store: st2.store.set_block(table as int, spec_set_le32(tb, index * 4, nb)), ..st2 }),
                    },
                }
            }
        },
    }
}

/// Walking `tiers` levels of block tables from `table` for entry `offset`, allocating the
/// missing tables and block when `op` asks for it: the block, none, or the error, and the
/// allocation state afterwards.
pub open spec fn spec_tier_alloc(sb: Ext2SuperBlock, st: AllocState, epb: int, tiers: int, table: u32, offset: int,
    op: GetFileBlockOp, inode: u32) -> (Result<Option<u32>, KernelError>, AllocState)
    decreases tiers,
{
    let span = spec_pow(epb, tiers - 1);
    let index = offset / span;
    if tiers <= 1 {
        spec_get_or_alloc(sb, st, table, index, op, inode)
    } else {
        let (r1, st1) = spec_get_or_alloc(sb, st, table, index, op, inode);
        match r1 {
            Err(e) => (Err(e), st1),
            Ok(None) => (Ok(None), st1),
            Ok(Some(block)) => spec_tier_alloc(sb, st1, epb, tiers - 1, block, offset % span, op, inode),
        }
    }
}

/// Finding block `linear` of a file with the block pointers `blocks`, allocating the missing
/// block pointer, tables and block: the block or the error, the allocation state and the block
/// pointers afterwards.
#[verifier::opaque]
pub open spec fn spec_file_block_alloc(sb: Ext2SuperBlock, st: AllocState, blocks: Seq<u32>, inode: u32, linear: int)
    -> (Result<Option<u32>, KernelError>, AllocState, Seq<u32>)
{
    let epb = sb.block_size as int / 4;
    match spec_number_of_tiers(epb, linear) {
        Err(e) => (Err(e), st, blocks),
        Ok(tiers) => {
            let index = if linear < EXT2_INODE_DIRECT_BLOCKS { linear } else { EXT2_INODE_DIRECT_BLOCKS + tiers - 1 };
            let (a, st0, blocks0) = if blocks[index] == 0 {
                let (a, st2) = alloc_block_step(sb, st, inode);
                match a {
                    Err(e) => (Err(e), st2, blocks),
                    Ok(nb) => (Ok(()), st2, blocks.update(index, nb)),
                }
            } else {
                (Ok(()), st, blocks)
            };
            match a {
                Err(e) => (Err(e), st0, blocks0),
                Ok(_) => if tiers == 0 {
                    (Ok(Some(blocks0[index])), st0, blocks0)
                } else {
                    let (r, st3) = spec_tier_alloc(sb, st0, epb, tiers, blocks0[index], linear - EXT2_INODE_DIRECT_BLOCKS,
                        GetFileBlockOp::Allocate, inode);
                    (r, st3, blocks0)
                },
            }
        },
    }
}

/// The allocations of a walk of `tiers` levels of block tables from `table` leave the tables
/// above the one they write as they were, and give no block zero.
pub open spec fn tier_alloc_apart(sb: Ext2SuperBlock, st: AllocState, epb: int, tiers: int, table: u32, offset: int,
    inode: u32) -> bool
    decreases tiers,
{
    let span = spec_pow(epb, tiers - 1);
    let (r1, st1) = spec_get_or_alloc(sb, st, table, offset / span, GetFileBlockOp::Allocate, inode);
    match r1 {
        Ok(Some(block)) => {
            &&& block != 0
            &&& tiers > 1 ==> {
                &&& spec_tier_alloc(sb, st1, epb, tiers - 1, block, offset % span, GetFileBlockOp::Allocate, inode).1
                    .store.read(table as int) == st1.store.read(table as int)
                &&& tier_alloc_apart(sb, st1, epb, tiers - 1, block, offset % span, inode)
            }
        },
        _ => true,
    }
}

/// The allocations that finding block `linear` of a file makes leave the tables above the one
/// they write as they were, and give no block zero.
#[verifier::opaque]
pub open spec fn file_alloc_apart(sb: Ext2SuperBlock, st: AllocState, blocks: Seq<u32>, inode: u32, linear: int) -> bool {
    let epb = sb.block_size as int / 4;
    match spec_number_of_tiers(epb, linear) {
        Err(_) => true,
        Ok(tiers) => {
            let index = if linear < EXT2_INODE_DIRECT_BLOCKS { linear } else { EXT2_INODE_DIRECT_BLOCKS + tiers - 1 };
            let a = spec_file_block_alloc(sb, st, blocks, inode, linear);
            let st0 = if blocks[index] == 0 { alloc_block_step(sb, st, inode).1 } else { st };
            a.0 is Ok ==> {
                &&& a.2[index] != 0
                &&& tiers > 0 ==> tier_alloc_apart(sb, st0, epb, tiers, a.2[index], linear - EXT2_INODE_DIRECT_BLOCKS, inode)
            }
        },
    }
}

/// After reading (and filling where empty) entry `index` of a block table, the table holds the
/// block given.
proof fn lemma_get_or_alloc_readback(sb: Ext2SuperBlock, st: AllocState, table: u32, index: int, inode: u32)
    requires
        st.store.wf(),
        0 <= index,
        index * 4 + 4 <= st.store.block_size,
        spec_get_or_alloc(sb, st, table, index, GetFileBlockOp::Allocate, inode).0 is Ok,
    ensures
        ({
            let (r1, st1) = spec_get_or_alloc(sb, st, table, index, GetFileBlockOp::Allocate, inode);
            &&& st1.store.read(table as int) matches Ok(t)
            &&& r1 == Ok::<Option<u32>, KernelError>(Some(spec_read_le32(t, index * 4)))
        }),
{
    if let Ok(bytes) = st.store.read(table as int) {
        if spec_read_le32(bytes, index * 4) == 0 {
            let st2 = alloc_block_step(sb, st, inode).1;
            if let Ok(tb) = st2.store.read(table as int) {
                if let Ok(nb) = alloc_block_step(sb, st, inode).0 {
                    crate::block::lemma_block_bounds(st2.store, table as int);
                    let nt = spec_set_le32(tb, index * 4, nb);
                    lemma_read_after_write(st2.store, table as int, table as int, nt);
                    assert(spec_read_le32(nt, index * 4) == nb);
                }
            }
        }
    }
}

/// Where the allocations of a walk of block tables leave the tables above as they were, the
/// block the walk gives is the block that the tables afterwards lead to.
pub proof fn lemma_tier_alloc_readback(sb: Ext2SuperBlock, st: AllocState, epb: int, tiers: int, table: u32,
    offset: int, inode: u32)
    requires
        st.store.wf(),
        1 <= epb,
        epb * 4 <= st.store.block_size,
        epb * epb * epb <= usize::MAX,
        1 <= tiers <= 3,
        0 <= offset < spec_pow(epb, tiers),
        tier_alloc_apart(sb, st, epb, tiers, table, offset, inode),
        spec_tier_alloc(sb, st, epb, tiers, table, offset, GetFileBlockOp::Allocate, inode).0 is Ok,
    ensures
        ({
            let (r, st2) = spec_tier_alloc(sb, st, epb, tiers, table, offset, GetFileBlockOp::Allocate, inode);
            &&& st2.store.wf()
            &&& st2.store.block_size == st.store.block_size
            &&& spec_block_in_tier(st2.store, epb, tiers, table, offset) == r
        }),
    decreases tiers,
{
    let span = spec_pow(epb, tiers - 1);
    let index = offset / span;
    lemma_pow_facts(epb);
    reveal_with_fuel(spec_pow, 4);
    assert(span > 0) by (nonlinear_arith) requires span == 1 || span == epb || span == epb * epb, epb >= 1;
    assert(spec_pow(epb, tiers) == epb * span);
    assert(0 <= index < epb) by (nonlinear_arith) requires 0 <= offset < epb * span, span > 0, index == offset / span;
    vstd::arithmetic::div_mod::lemma_mod_bound(offset, span);
    lemma_get_or_alloc_readback(sb, st, table, index, inode);
    let (r1, st1) = spec_get_or_alloc(sb, st, table, index, GetFileBlockOp::Allocate, inode);
    lemma_alloc_state_store(sb, st, table, index, inode);
    if tiers > 1 {
        if let Ok(Some(block)) = r1 {
            lemma_tier_alloc_readback(sb, st1, epb, tiers - 1, block, offset % span, inode);
        }
    }
}

/// Where the allocations that finding block `linear` of a file makes leave the tables above as
/// they were, the block found is the one that the file's block pointers and tables afterwards
/// lead to.
pub proof fn lemma_file_alloc_readback(sb: Ext2SuperBlock, st: AllocState, blocks: Seq<u32>, inode: u32, linear: int)
    requires
        st.store.wf(),
        st.store.block_size == sb.block_size,
        tables_indexable(sb.block_size as int),
        blocks.len() == EXT2_INODE_BLOCK_ENTRIES,
        0 <= linear,
        file_alloc_apart(sb, st, blocks, inode, linear),
        spec_file_block_alloc(sb, st, blocks, inode, linear).0 is Ok,
    ensures
        ({
            let a = spec_file_block_alloc(sb, st, blocks, inode, linear);
            spec_file_block(a.1.store, a.2, sb.block_size as int, linear) == a.0
        }),
{
    reveal(spec_file_block_alloc);
    reveal(file_alloc_apart);
    let epb = sb.block_size as int / 4;
    lemma_pow_facts(epb);
    reveal_with_fuel(spec_pow, 4);
    assert(epb * 4 <= sb.block_size);
    if let Ok(tiers) = spec_number_of_tiers(epb, linear) {
        let index = if linear < EXT2_INODE_DIRECT_BLOCKS { linear } else { EXT2_INODE_DIRECT_BLOCKS + tiers - 1 };
        let st0 = if blocks[index] == 0 { alloc_block_step(sb, st, inode).1 } else { st };
        let a = spec_file_block_alloc(sb, st, blocks, inode, linear);
        if tiers > 0 {
            assert(spec_pow(epb, tiers) == if tiers == 1 { epb } else if tiers == 2 { epb * epb } else { epb * (epb * epb) });
            assert(epb * (epb * epb) == epb * epb * epb) by (nonlinear_arith);
            assert(st0.store.wf() && st0.store.block_size == st.store.block_size);
            lemma_tier_alloc_readback(sb, st0, epb, tiers, a.2[index], linear - EXT2_INODE_DIRECT_BLOCKS, inode);
        }
    }
}

/// Walking and filling block tables keeps the store well formed, with its block size.
pub proof fn lemma_tier_alloc_store(sb: Ext2SuperBlock, st: AllocState, epb: int, tiers: int, table: u32, offset: int,
    inode: u32)
    requires
        st.store.wf(),
    ensures
        spec_tier_alloc(sb, st, epb, tiers, table, offset, GetFileBlockOp::Allocate, inode).1.store.wf(),
        spec_tier_alloc(sb, st, epb, tiers, table, offset, GetFileBlockOp::Allocate, inode).1.store.block_size
            == st.store.block_size,
    decreases tiers,
{
    let span = spec_pow(epb, tiers - 1);
    lemma_alloc_state_store(sb, st, table, offset / span, inode);
    if tiers > 1 {
        let (r1, st1) = spec_get_or_alloc(sb, st, table, offset / span, GetFileBlockOp::Allocate, inode);
        if let Ok(Some(block)) = r1 {
            lemma_tier_alloc_store(sb, st1, epb, tiers - 1, block, offset % span, inode);
        }
    }
}

/// Finding and allocating a file's block keeps the store well formed, with its block size, and
/// keeps the number of block pointers.
pub proof fn lemma_file_block_alloc_store(sb: Ext2SuperBlock, st: AllocState, blocks: Seq<u32>, inode: u32, linear: int)
    requires
        st.store.wf(),
        blocks.len() == EXT2_INODE_BLOCK_ENTRIES,
        0 <= linear,
    ensures
        spec_file_block_alloc(sb, st, blocks, inode, linear).1.store.wf(),
        spec_file_block_alloc(sb, st, blocks, inode, linear).1.store.block_size == st.store.block_size,
        spec_file_block_alloc(sb, st, blocks, inode, linear).2.len() == EXT2_INODE_BLOCK_ENTRIES,
{
    reveal(spec_file_block_alloc);
    let epb = sb.block_size as int / 4;
    if let Ok(tiers) = spec_number_of_tiers(epb, linear) {
        let index = if linear < EXT2_INODE_DIRECT_BLOCKS { linear } else { EXT2_INODE_DIRECT_BLOCKS + tiers - 1 };
        let st0 = if blocks[index] == 0 { alloc_block_step(sb, st, inode).1 } else { st };
        let a = spec_file_block_alloc(sb, st, blocks, inode, linear);
        lemma_tier_alloc_store(sb, st0, epb, tiers, a.2[index], linear - EXT2_INODE_DIRECT_BLOCKS, inode);
    }
}

/// Reading or filling an entry of a block table keeps the store well formed, with its block size.
proof fn lemma_alloc_state_store(sb: Ext2SuperBlock, st: AllocState, table: u32, index: int, inode: u32)
    requires
        st.store.wf(),
    ensures
        spec_get_or_alloc(sb, st, table, index, GetFileBlockOp::Allocate, inode).1.store.wf(),
        spec_get_or_alloc(sb, st, table, index, GetFileBlockOp::Allocate, inode).1.store.block_size == st.store.block_size,
{
}

/// Two superblocks of the same layout walk and allocate alike.
pub proof fn lemma_tier_alloc_layout(a: Ext2SuperBlock, b: Ext2SuperBlock, st: AllocState, epb: int, tiers: int,
    table: u32, offset: int, op: GetFileBlockOp, inode: u32)
    requires
        same_layout(a, b),
    ensures
        spec_tier_alloc(a, st, epb, tiers, table, offset, op, inode) == spec_tier_alloc(b, st, epb, tiers, table, offset, op, inode),
    decreases tiers,
{
    lemma_alloc_step_layout(a, b, st, inode);
    let span = spec_pow(epb, tiers - 1);
    let index = offset / span;
    if let Ok(bytes) = st.store.read(table as int) {
        if spec_read_le32(bytes, index * 4) == 0 && op == GetFileBlockOp::Allocate {
            let st2 = alloc_block_step(a, st, inode).1;
            lemma_alloc_step_layout(a, b, st2, inode);
        }
    }
    if tiers > 1 {
        let (r1, st1) = spec_get_or_alloc(a, st, table, index, op, inode);
        if let Ok(Some(block)) = r1 {
            lemma_tier_alloc_layout(a, b, st1, epb, tiers - 1, block, offset % span, op, inode);
        }
    }
}

/// Two superblocks of the same layout find and allocate a file's blocks alike.
pub proof fn lemma_file_block_alloc_layout(a: Ext2SuperBlock, b: Ext2SuperBlock, st: AllocState, blocks: Seq<u32>,
    inode: u32, linear: int)
    requires
        same_layout(a, b),
    ensures
        spec_file_block_alloc(a, st, blocks, inode, linear) == spec_file_block_alloc(b, st, blocks, inode, linear),
{
    reveal(spec_file_block_alloc);
    lemma_alloc_step_layout(a, b, st, inode);
    let epb = a.block_size as int / 4;
    if let Ok(tiers) = spec_number_of_tiers(epb, linear) {
        let index = if linear < EXT2_INODE_DIRECT_BLOCKS { linear } else { EXT2_INODE_DIRECT_BLOCKS + tiers - 1 };
        let (x, st0, blocks0) = if blocks[index] == 0 {
            let (x, st2) = alloc_block_step(a, st, inode);
            match x {
                Err(e) => (Err(e), st2, blocks),
                Ok(nb) => (Ok(()), st2, blocks.update(index, nb)),
            }
        } else {
            (Ok::<(), KernelError>(()), st, blocks)
        };
        lemma_tier_alloc_layout(a, b, st0, epb, tiers, blocks0[index], linear - EXT2_INODE_DIRECT_BLOCKS,
            GetFileBlockOp::Allocate, inode);
    }
}

impl Ext2Vnode {
    /// The number of levels of block tables between the inode and block `linear` of the file.
    pub fn get_number_of_tiers(&self, block_size: usize, linear_block_num: usize) -> (r: Result<usize, KernelError>)
        requires
            tables_indexable(block_size as int),
        ensures
            match r {
                Ok(t) => spec_number_of_tiers(block_size as int / 4, linear_block_num as int) == Ok::<int, KernelError>(t as int),
                Err(e) => spec_number_of_tiers(block_size as int / 4, linear_block_num as int) == Err::<int, KernelError>(e),
            },
    {
        let entries_per_block = block_size / 4;
        proof { lemma_pow_facts(entries_per_block as int); }
        if linear_block_num < EXT2_INODE_DIRECT_BLOCKS {
            return Ok(0);
        }
        let remaining_offset = linear_block_num - EXT2_INODE_DIRECT_BLOCKS;
        if remaining_offset < entries_per_block {
            Ok(1)
        } else if remaining_offset < entries_per_block * entries_per_block {
            Ok(2)
        } else if remaining_offset < entries_per_block * entries_per_block * entries_per_block {
            Ok(3)
        } else {
            Err(KernelError::FileSizeTooLarge)
        }
    }
}

/// Reads entry `index` of a block table, allocating a block for it when it is empty and
/// `op` asks for allocation.
pub fn get_or_allocate_block(mount: &mut Ext2Mount, table_block: BlockNum, index: usize, op: GetFileBlockOp, inode: u32)
    -> (r: Result<Option<BlockNum>, KernelError>)
    requires
        old(mount).wf(),
        (index + 1) * 4 <= old(mount).superblock.block_size,
    ensures
        final(mount).wf(),
        final(mount).superblock.block_size == old(mount).superblock.block_size,
        same_layout(final(mount).superblock, old(mount).superblock),
        final(mount).superblock.total_unalloc_inodes == old(mount).superblock.total_unalloc_inodes,
        final(mount).device_id == old(mount).device_id,
        (r, alloc_state(final(mount).superblock, final(mount).store@)) == spec_get_or_alloc(old(mount).superblock,
            alloc_state(old(mount).superblock, old(mount).store@), table_block, index as int, op, inode),
        op == GetFileBlockOp::Lookup ==> *final(mount) == *old(mount),
        op == GetFileBlockOp::Allocate ==> !(r matches Ok(None)),
        match old(mount).store@.read(table_block as int) {
            Err(e) => r == Err::<Option<BlockNum>, KernelError>(e) && final(mount).store@ == old(mount).store@,
            Ok(bytes) => {
                let block = spec_read_le32(bytes, index * 4);
                if block != 0 {
                    r == Ok::<Option<BlockNum>, KernelError>(Some(block)) && final(mount).store@ == old(mount).store@
                } else if op == GetFileBlockOp::Lookup {
                    r == Ok::<Option<BlockNum>, KernelError>(None)
                } else {
                    match r {
                        Ok(Some(b)) => final(mount).store@.read(table_block as int) matches Ok(t)
                            && spec_read_le32(t, index * 4) == b,
                        Ok(None) => false,
                        Err(_) => true,
                    }
                }
            },
        },
{
    let buf = mount.store.read_block(table_block)?;
    proof { crate::block::lemma_block_bounds(mount.store@, table_block as int); }
    let block = read_le32(buf.as_slice(), index * 4);

    if block != 0 {
        Ok(Some(block))
    } else if op == GetFileBlockOp::Lookup {
        Ok(None)
    } else {
        let ghost sb0 = mount.superblock;
        let ghost store0 = mount.store@;
        let alloc = mount.superblock.try_alloc_block(&mut mount.store, inode);
        proof { lemma_try_alloc_step(sb0, mount.superblock, store0, mount.store@, inode, alloc); }
        let new_block = alloc?;
        let mut table = mount.store.read_block(table_block)?;
        proof { crate::block::lemma_block_bounds(mount.store@, table_block as int); }
        write_le32(&mut table, index * 4, new_block);
        proof {
            crate::block::lemma_read_after_write(mount.store@, table_block as int, table_block as int, table@);
        }
        mount.store.write_block(table_block, &table)?;
        Ok(Some(new_block))
    }
}

impl Ext2Vnode {
    /// Walks `tiers` levels of block tables from `table_block` for entry `offset`.
    pub fn get_block_in_tier(&mut self, mount: &mut Ext2Mount, tiers: usize, table_block: BlockNum, offset: usize, op: GetFileBlockOp)
        -> (r: Result<Option<BlockNum>, KernelError>)
        requires
            old(mount).wf(),
            tables_indexable(old(mount).superblock.block_size as int),
            1 <= tiers <= 3,
            offset < spec_pow(old(mount).superblock.block_size as int / 4, tiers as int),
        ensures
            final(mount).wf(),
            final(mount).superblock.block_size == old(mount).superblock.block_size,
            same_layout(final(mount).superblock, old(mount).superblock),
            final(mount).superblock.total_unalloc_inodes == old(mount).superblock.total_unalloc_inodes,
            final(mount).device_id == old(mount).device_id,
            (r, alloc_state(final(mount).superblock, final(mount).store@)) == spec_tier_alloc(old(mount).superblock,
                alloc_state(old(mount).superblock, old(mount).store@), old(mount).superblock.block_size as int / 4,
                tiers as int, table_block, offset as int, op, old(self).attrs.inode),
            *final(self) == *old(self),
            op == GetFileBlockOp::Allocate ==> !(r matches Ok(None)),
            op == GetFileBlockOp::Lookup ==> *final(mount) == *old(mount)
                && match r {
                    Ok(b) => spec_block_in_tier(old(mount).store@, old(mount).superblock.block_size as int / 4,
                        tiers as int, table_block, offset as int) == Ok::<Option<u32>, KernelError>(b),
                    Err(e) => spec_block_in_tier(old(mount).store@, old(mount).superblock.block_size as int / 4,
                        tiers as int, table_block, offset as int) == Err::<Option<u32>, KernelError>(e),
                },
        decreases tiers,
    {
        let entries_per_block = mount.superblock.get_block_size() / 4;
        proof {
            lemma_pow_facts(entries_per_block as int);
            reveal_with_fuel(spec_pow, 4);
        }
        let span = if tiers == 1 { 1 } else if tiers == 2 { entries_per_block } else { entries_per_block * entries_per_block };
        assert(span as int == spec_pow(entries_per_block as int, tiers - 1));
        assert(span > 0) by (nonlinear_arith) requires span == 1 || span == entries_per_block || span == entries_per_block * entries_per_block, entries_per_block >= 1;
        let index = offset / span;
        proof {
            assert(offset < entries_per_block * span) by {
                assert(spec_pow(entries_per_block as int, tiers as int) == entries_per_block * spec_pow(entries_per_block as int, tiers - 1));
            }
            assert(index < entries_per_block) by (nonlinear_arith)
                requires offset < entries_per_block * span, span > 0, index == offset / span;
            assert((index + 1) * 4 <= mount.superblock.block_size) by (nonlinear_arith)
                requires index < entries_per_block, entries_per_block == mount.superblock.block_size / 4;
        }

        if tiers <= 1 {
            let found = get_or_allocate_block(mount, table_block, index, op, self.attrs.inode)?;
            Ok(found)
        } else {
            let block = match get_or_allocate_block(mount, table_block, index, op, self.attrs.inode)? {
                None => { return Ok(None); },
                Some(block) => block,
            };
            let remain = offset % span;
            proof {
                vstd::arithmetic::div_mod::lemma_mod_bound(offset as int, span as int);
            }
            let ghost mid = *mount;
            let found = self.get_block_in_tier(mount, tiers - 1, block, remain, op);
            proof {
                lemma_tier_alloc_layout(mid.superblock, old(mount).superblock, alloc_state(mid.superblock, mid.store@),
                    entries_per_block as int, tiers - 1, block, remain as int, op, self.attrs.inode);
            }
            found
        }
    }

    /// The block that holds block `linear_block_num` of the file; with `Allocate`, the missing
    /// blocks on the way are allocated (each by `try_alloc_block`).
    pub fn get_file_block_num(&mut self, mount: &mut Ext2Mount, linear_block_num: usize, op: GetFileBlockOp)
        -> (r: Result<Option<BlockNum>, KernelError>)
        requires
            old(mount).wf(),
            old(self).wf(),
            tables_indexable(old(mount).superblock.block_size as int),
        ensures
            final(mount).wf(),
            final(self).wf(),
            final(mount).superblock.block_size == old(mount).superblock.block_size,
            final(self).attrs == old(self).attrs,
            final(self).dirty == old(self).dirty,
            final(self).freed == old(self).freed,
            same_layout(final(mount).superblock, old(mount).superblock),
            final(mount).superblock.total_unalloc_inodes == old(mount).superblock.total_unalloc_inodes,
            final(mount).device_id == old(mount).device_id,
            op == GetFileBlockOp::Allocate ==> (r, alloc_state(final(mount).superblock, final(mount).store@),
                final(self).blocks@) == spec_file_block_alloc(old(mount).superblock,
                    alloc_state(old(mount).superblock, old(mount).store@), old(self).blocks@, old(self).attrs.inode,
                    linear_block_num as int),
            op == GetFileBlockOp::Allocate && file_alloc_apart(old(mount).superblock,
                alloc_state(old(mount).superblock, old(mount).store@), old(self).blocks@, old(self).attrs.inode,
                linear_block_num as int) ==> match r {
                    Ok(Some(b)) => spec_file_block(final(mount).store@, final(self).blocks@,
                        old(mount).superblock.block_size as int, linear_block_num as int)
                        == Ok::<Option<u32>, KernelError>(Some(b)),
                    _ => true,
                },
            op == GetFileBlockOp::Allocate ==> !(r matches Ok(None)),
            op == GetFileBlockOp::Lookup ==> *final(mount) == *old(mount)
                && *final(self) == *old(self)
                && match r {
                    Ok(b) => spec_file_block(old(mount).store@, old(self).blocks@, old(mount).superblock.block_size as int,
                        linear_block_num as int) == Ok::<Option<u32>, KernelError>(b),
                    Err(e) => spec_file_block(old(mount).store@, old(self).blocks@, old(mount).superblock.block_size as int,
                        linear_block_num as int) == Err::<Option<u32>, KernelError>(e),
                },
            spec_number_of_tiers(old(mount).superblock.block_size as int / 4, linear_block_num as int) is Err
                ==> r == Err::<Option<BlockNum>, KernelError>(KernelError::FileSizeTooLarge),
            linear_block_num < EXT2_INODE_DIRECT_BLOCKS && old(self).blocks@[linear_block_num as int] != 0
                ==> r == Ok::<Option<BlockNum>, KernelError>(Some(old(self).blocks@[linear_block_num as int]))
                && *final(mount) == *old(mount) && *final(self) == *old(self),
            op == GetFileBlockOp::Allocate && linear_block_num < EXT2_INODE_DIRECT_BLOCKS
                && old(self).blocks@[linear_block_num as int] == 0 ==> match r {
                    Ok(Some(b)) => try_alloc_block_outcome(old(mount).superblock, final(mount).superblock,
                        old(mount).store@, final(mount).store@, old(self).attrs.inode, Ok(b))
                        && final(self).blocks@ == old(self).blocks@.update(linear_block_num as int, b),
                    Ok(None) => false,
                    Err(e) => try_alloc_block_outcome(old(mount).superblock, final(mount).superblock,
                        old(mount).store@, final(mount).store@, old(self).attrs.inode, Err(e))
                        && final(self).blocks@ == old(self).blocks@,
                },
    {
        let block_size = mount.superblock.get_block_size();
        proof {
            reveal(spec_file_block_alloc);
            let st = alloc_state(mount.superblock, mount.store@);
            if op == GetFileBlockOp::Allocate && file_alloc_apart(mount.superblock, st, self.blocks@, self.attrs.inode,
                linear_block_num as int) && spec_file_block_alloc(mount.superblock, st, self.blocks@, self.attrs.inode,
                linear_block_num as int).0 is Ok {
                lemma_file_alloc_readback(mount.superblock, st, self.blocks@, self.attrs.inode, linear_block_num as int);
            }
        }
        let tiers = self.get_number_of_tiers(block_size, linear_block_num)?;
        let index = if linear_block_num < EXT2_INODE_DIRECT_BLOCKS {
            linear_block_num
        } else {
            EXT2_INODE_DIRECT_BLOCKS + tiers - 1
        };

        if self.blocks[index] == 0 {
            if op == GetFileBlockOp::Lookup {
                return Ok(None);
            }
            let ghost sb0 = mount.superblock;
            let ghost store0 = mount.store@;
            let alloc = mount.superblock.try_alloc_block(&mut mount.store, self.attrs.inode);
            proof { lemma_try_alloc_step(sb0, mount.superblock, store0, mount.store@, self.attrs.inode, alloc); }
            let new_block = alloc?;
            self.blocks.set(index, new_block);
        }

        if tiers == 0 {
            Ok(Some(self.blocks[index]))
        } else {
            let table = self.blocks[index];
            proof {
                let epb = block_size as int / 4;
                lemma_pow_facts(epb);
                reveal_with_fuel(spec_pow, 4);
                assert(epb * (epb * epb) == epb * epb * epb) by (nonlinear_arith);
                assert(spec_pow(epb, 3) == epb * epb * epb);
            }
            let ghost mid = *mount;
            let found = self.get_block_in_tier(mount, tiers, table, linear_block_num - EXT2_INODE_DIRECT_BLOCKS, op);
            proof {
                lemma_tier_alloc_layout(mid.superblock, old(mount).superblock, alloc_state(mid.superblock, mid.store@),
                    block_size as int / 4, tiers as int, table, linear_block_num - EXT2_INODE_DIRECT_BLOCKS, op,
                    self.attrs.inode);
            }
            found
        }
    }
}

} // verus!
