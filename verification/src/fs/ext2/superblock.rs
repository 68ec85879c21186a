use vstd::prelude::*;

use crate::errors::KernelError;
use crate::misc::{read_le16, read_le32, write_le16, write_le32, spec_read_le16, spec_read_le32, ceiling_div, spec_ceiling_div};
use crate::block::{BlockStore, BlockStoreView, BlockNum, DeviceID};

verus! {

/// True when bit `n` of a bitmap is set.
pub open spec fn bit_is_set(table: Seq<u8>, n: int) -> bool {
    (table[n / 8] >> ((n % 8) as u8)) & 1 == 1
}

/// The lowest clear bit of a byte that is not all ones, as `alloc_bit` finds it (it looks
/// at the low seven bits and takes the top bit when they are all set).
pub open spec fn spec_first_clear_bit(byte: u8) -> int
    decreases 0int,
{
    if byte & 0x01 == 0 { 0 }
    else if byte & 0x02 == 0 { 1 }
    else if byte & 0x04 == 0 { 2 }
    else if byte & 0x08 == 0 { 3 }
    else if byte & 0x10 == 0 { 4 }
    else if byte & 0x20 == 0 { 5 }
    else if byte & 0x40 == 0 { 6 }
    else { 7 }
}

/// True when byte `i` is the first of the first `size` bytes that has a clear bit.
pub open spec fn is_first_free_byte(table: Seq<u8>, size: int, i: int) -> bool {
    &&& 0 <= i < size
    &&& table[i] != 0xff
    &&& forall|j: int| 0 <= j < i ==> table[j] == 0xff
}

/// True when none of the first `size` bytes has a clear bit.
pub open spec fn bitmap_full(table: Seq<u8>, size: int) -> bool {
    forall|j: int| 0 <= j < size ==> table[j] == 0xff
}

/// Allocates the first clear bit among the first `table_size` bytes of a bitmap: sets it
/// and returns its number, or `None` when they are all set.
pub fn alloc_bit(table: &mut Vec<u8>, table_size: usize) -> (r: Option<usize>)
    requires
        table_size <= old(table)@.len() || !bitmap_full(old(table)@, old(table)@.len() as int),
        forall|i: int| is_first_free_byte(old(table)@, table_size as int, i) ==> i * 8 + 8 <= usize::MAX,
    ensures
        final(table)@.len() == old(table)@.len(),
        match r {
            None => bitmap_full(old(table)@, table_size as int) && final(table)@ == old(table)@,
            Some(n) => {
                let i = n as int / 8;
                let b = n as int % 8;
                &&& is_first_free_byte(old(table)@, table_size as int, i)
                &&& b == spec_first_clear_bit(old(table)@[i])
                &&& final(table)@ == old(table)@.update(i, old(table)@[i] | (1u8 << (b as u8)))
            },
        },
{
    let mut i: usize = 0;
    while i < table_size
        invariant
            0 <= i <= table_size,
            table_size <= table@.len() || !bitmap_full(table@, table@.len() as int),
            forall|k: int| is_first_free_byte(old(table)@, table_size as int, k) ==> k * 8 + 8 <= usize::MAX,
            table@ == old(table)@,
            forall|j: int| 0 <= j < i ==> table@[j] == 0xff,
        decreases table_size - i,
    {
        assert(i < table@.len()) by {
            if i >= table@.len() {
                assert(bitmap_full(table@, table@.len() as int));
            }
        }
        if table[i] != 0xff {
            let byte = table[i];
            let mut bit: u8 = 0;
            while bit < 7 && (byte & (0x01u8 << bit)) != 0
                invariant
                    0 <= bit <= 7,
                    byte != 0xff,
                    forall|k: u8| 0 <= k < bit ==> #[trigger] (byte & (0x01u8 << k)) != 0,
                decreases 7 - bit,
            {
                bit += 1;
            }
            assert(bit as int == spec_first_clear_bit(byte)) by {
                assert(0x01u8 << 0u8 == 0x01 && 0x01u8 << 1u8 == 0x02 && 0x01u8 << 2u8 == 0x04
                    && 0x01u8 << 3u8 == 0x08 && 0x01u8 << 4u8 == 0x10 && 0x01u8 << 5u8 == 0x20
                    && 0x01u8 << 6u8 == 0x40) by (bit_vector);
                if bit == 7 {
                    assert(byte & 0x01 != 0);
                    assert(byte & (0x01u8 << 1u8) != 0);
                    assert(byte & (0x01u8 << 2u8) != 0);
                    assert(byte & (0x01u8 << 3u8) != 0);
                    assert(byte & (0x01u8 << 4u8) != 0);
                    assert(byte & (0x01u8 << 5u8) != 0);
                    assert(byte & (0x01u8 << 6u8) != 0);
                } else {
                    let ghost k = bit;
                    if k >= 1 { assert(byte & (0x01u8 << 0u8) != 0); }
                    if k >= 2 { assert(byte & (0x01u8 << 1u8) != 0); }
                    if k >= 3 { assert(byte & (0x01u8 << 2u8) != 0); }
                    if k >= 4 { assert(byte & (0x01u8 << 3u8) != 0); }
                    if k >= 5 { assert(byte & (0x01u8 << 4u8) != 0); }
                    if k >= 6 { assert(byte & (0x01u8 << 5u8) != 0); }
                }
            }
            assert(is_first_free_byte(old(table)@, table_size as int, i as int));
            table.set(i, byte | (0x01u8 << bit));
            let n = i * 8 + bit as usize;
            assert(n / 8 == i && n % 8 == bit as int);
            return Some(n);
        }
        i += 1;
    }
    None
}

/// Clears bit `bitnum` of a bitmap.
pub fn free_bit(table: &mut Vec<u8>, bitnum: usize)
    requires
        bitnum / 8 < old(table)@.len(),
    ensures
        final(table)@ == old(table)@.update(bitnum as int / 8, old(table)@[bitnum as int / 8] & !(1u8 << ((bitnum % 8) as u8))),
{
    let i = bitnum >> 3;
    let bit = (bitnum & 0x7) as u8;
    assert(bitnum >> 3 == bitnum / 8) by (bit_vector);
    assert(bitnum & 0x7 == bitnum % 8) by (bit_vector);
    let byte = table[i];
    table.set(i, byte & !(0x01u8 << bit));
}

/// True when bit `bitnum` of a bitmap is set.
pub fn bit_set(table: &Vec<u8>, bitnum: usize) -> (r: bool)
    requires
        bitnum / 8 < table@.len(),
    ensures
        r == bit_is_set(table@, bitnum as int),
{
    let byte = table[bitnum / 8];
    let shift = (bitnum % 8) as u8;
    (byte >> shift) & 1 == 1
}

/// The bit that `alloc_bit` hands out was clear, is set afterwards, and no other bit of the
/// bitmap changes.
pub proof fn lemma_alloc_bit_sets_only_its_bit(before: Seq<u8>, i: int, b: int, m: int)
    requires
        0 <= i < before.len(),
        before[i] != 0xff,
        b == spec_first_clear_bit(before[i]),
        0 <= m < before.len() * 8,
    ensures
        !bit_is_set(before, i * 8 + b),
        bit_is_set(before.update(i, before[i] | (1u8 << (b as u8))), i * 8 + b),
        m != i * 8 + b ==> bit_is_set(before.update(i, before[i] | (1u8 << (b as u8))), m) == bit_is_set(before, m),
{
    let byte = before[i];
    let after = before.update(i, byte | (1u8 << (b as u8)));
    assert((i * 8 + b) / 8 == i && (i * 8 + b) % 8 == b);
    let bb = b as u8;
    assert(0 <= b < 8) by {
        assert(spec_first_clear_bit(byte) <= 7);
    }
    assert(byte & (1u8 << bb) == 0) by {
        assert(byte != 0xff);
        if bb == 7 {
            assert(byte & 0x7f == 0x7f ==> byte & 0x80 == 0) by (bit_vector) requires byte != 0xff;
            assert(byte & 0x01 != 0 && byte & 0x02 != 0 && byte & 0x04 != 0 && byte & 0x08 != 0
                && byte & 0x10 != 0 && byte & 0x20 != 0 && byte & 0x40 != 0);
            assert((byte & 0x01 != 0 && byte & 0x02 != 0 && byte & 0x04 != 0 && byte & 0x08 != 0
                && byte & 0x10 != 0 && byte & 0x20 != 0 && byte & 0x40 != 0) ==> byte & 0x7f == 0x7f) by (bit_vector);
            assert(1u8 << 7u8 == 0x80) by (bit_vector);
        } else {
            assert(1u8 << 0u8 == 0x01) by (bit_vector);
            assert(1u8 << 1u8 == 0x02) by (bit_vector);
            assert(1u8 << 2u8 == 0x04) by (bit_vector);
            assert(1u8 << 3u8 == 0x08) by (bit_vector);
            assert(1u8 << 4u8 == 0x10) by (bit_vector);
            assert(1u8 << 5u8 == 0x20) by (bit_vector);
            assert(1u8 << 6u8 == 0x40) by (bit_vector);
        }
    }
    assert((byte & (1u8 << bb) == 0 && bb < 8) ==> (byte >> bb) & 1 != 1) by (bit_vector);
    assert(bb < 8 ==> ((byte | (1u8 << bb)) >> bb) & 1 == 1) by (bit_vector);
    if m != i * 8 + b {
        if m / 8 == i {
            let mb = (m % 8) as u8;
            assert(mb != bb);
            assert((mb < 8 && bb < 8 && mb != bb) ==> ((byte | (1u8 << bb)) >> mb) & 1 == (byte >> mb) & 1) by (bit_vector);
        }
    }
}

/// Clearing a bit that was just allocated gives back the bitmap as it was.
pub proof fn lemma_free_after_alloc_restores(before: Seq<u8>, i: int, b: int)
    requires
        0 <= i < before.len(),
        before[i] != 0xff,
        b == spec_first_clear_bit(before[i]),
    ensures
        ({
            let n = i * 8 + b;
            let after = before.update(i, before[i] | (1u8 << (b as u8)));
            after.update(n / 8, after[n / 8] & !(1u8 << ((n % 8) as u8))) == before
        }),
{
    let n = i * 8 + b;
    assert(n / 8 == i && n % 8 == b);
    lemma_alloc_bit_sets_only_its_bit(before, i, b, n);
    let byte = before[i];
    let bb = b as u8;
    assert(0 <= b < 8) by { assert(spec_first_clear_bit(byte) <= 7); }
    assert(!bit_is_set(before, n));
    assert(((byte >> bb) & 1 != 1 && bb < 8) ==> ((byte | (1u8 << bb)) & !(1u8 << bb)) == byte) by (bit_vector);
    let after = before.update(i, byte | (1u8 << bb));
    assert(after.update(i, after[i] & !(1u8 << bb)) =~= before);
}

pub const EXT2_SUPERBLOCK_MAGIC: u16 = 0xEF53;
pub const EXT2_INCOMPAT_FILE_TYPE_IN_DIRS: u32 = 0x00002;
pub const EXT2_INCOMPAT_FS_NEEDS_RECOVERY: u32 = 0x00004;
pub const EXT2_INCOMPAT_FLEX_BLOCK_GROUP: u32 = 0x00200;
pub const EXT2_INCOMPAT_SUPPORTED: u32 = EXT2_INCOMPAT_FILE_TYPE_IN_DIRS;

/// The size in bytes of a block group descriptor on disk.
pub const EXT2_GROUP_DESCRIPTOR_SIZE: usize = 32;

/// The superblock of a mounted ext2 filesystem.
pub struct Ext2SuperBlock {
    pub total_inodes: u32,
    pub total_blocks: u32,
    pub reserved_su_blocks: u32,
    pub total_unalloc_blocks: u32,
    pub total_unalloc_inodes: u32,
    pub superblock_block: u32,
    pub block_size: usize,
    pub blocks_per_group: usize,
    pub inodes_per_group: usize,
    pub magic: u16,
    pub state: u16,
    pub inode_size: usize,
    pub inodes_per_block: usize,
    pub device_id: DeviceID,
    pub total_block_groups: usize,
    pub groups: Vec<Ext2BlockGroup>,
}

/// The descriptor of a block group.
#[derive(Clone, Copy, PartialEq, Eq, Structural, Debug)]
pub struct Ext2BlockGroup {
    pub block_bitmap: u32,
    pub inode_bitmap: u32,
    pub inode_table: u32,
    pub free_block_count: u16,
    pub free_inode_count: u16,
    pub used_dirs_count: u16,
}

// Offsets of the fields of the superblock on disk.
pub const SB_TOTAL_INODES: usize = 0;
pub const SB_TOTAL_BLOCKS: usize = 4;
pub const SB_RESERVED_SU_BLOCKS: usize = 8;
pub const SB_TOTAL_UNALLOC_BLOCKS: usize = 12;
pub const SB_TOTAL_UNALLOC_INODES: usize = 16;
pub const SB_SUPERBLOCK_BLOCK: usize = 20;
pub const SB_LOG_BLOCK_SIZE: usize = 24;
pub const SB_LOG_FRAGMENT_SIZE: usize = 28;
pub const SB_BLOCKS_PER_GROUP: usize = 32;
pub const SB_INODES_PER_GROUP: usize = 40;
pub const SB_MAGIC: usize = 56;
pub const SB_STATE: usize = 58;
pub const SB_MAJOR_VERSION: usize = 76;
pub const SB_INODE_SIZE: usize = 88;
pub const SB_INCOMPAT_FEATURES: usize = 96;

/// The size in bytes of the superblock fields that are read.
pub const SB_SIZE: usize = 104;

/// The block size that a logarithm field of the superblock gives (`1024 << log`).
pub open spec fn spec_size_from_log(log: u32) -> usize {
    (1024u64 << log as u64) as usize
}

/// The inode size recorded in the superblock (128 bytes before version 1).
pub open spec fn spec_inode_size(data: Seq<u8>) -> usize {
    if spec_read_le32(data, SB_MAJOR_VERSION as int) >= 1 {
        spec_read_le16(data, SB_INODE_SIZE as int) as usize
    } else {
        128
    }
}

/// Why a superblock is refused, if it is.
pub open spec fn spec_superblock_error(data: Seq<u8>) -> Option<KernelError> {
    if spec_read_le16(data, SB_MAGIC as int) != EXT2_SUPERBLOCK_MAGIC {
        Some(KernelError::InvalidSuperblock)
    } else if spec_size_from_log(spec_read_le32(data, SB_LOG_BLOCK_SIZE as int))
        != spec_size_from_log(spec_read_le32(data, SB_LOG_FRAGMENT_SIZE as int)) {
        Some(KernelError::InvalidSuperblock)
    } else if spec_read_le32(data, SB_INCOMPAT_FEATURES as int) & !EXT2_INCOMPAT_SUPPORTED != 0 {
        Some(KernelError::IncompatibleFeatures)
    } else {
        None
    }
}

/// The superblock bytes can be read without a shift past the word or a division by zero.
pub open spec fn superblock_readable(data: Seq<u8>) -> bool {
    &&& data.len() >= SB_SIZE
    &&& spec_read_le32(data, SB_LOG_BLOCK_SIZE as int) < 64
    &&& spec_read_le32(data, SB_LOG_FRAGMENT_SIZE as int) < 64
    &&& spec_superblock_error(data) is None ==> {
        &&& spec_inode_size(data) != 0
        &&& spec_read_le32(data, SB_BLOCKS_PER_GROUP as int) != 0
    }
}

/// The superblock holds the values that the bytes of an accepted superblock give.
pub open spec fn superblock_matches(sb: Ext2SuperBlock, device_id: DeviceID, data: Seq<u8>) -> bool {
    let block_size = spec_size_from_log(spec_read_le32(data, SB_LOG_BLOCK_SIZE as int));
    let blocks_per_group = spec_read_le32(data, SB_BLOCKS_PER_GROUP as int) as usize;
    let total_blocks = spec_read_le32(data, SB_TOTAL_BLOCKS as int);
    &&& sb.total_inodes == spec_read_le32(data, SB_TOTAL_INODES as int)
    &&& sb.total_blocks == total_blocks
    &&& sb.reserved_su_blocks == spec_read_le32(data, SB_RESERVED_SU_BLOCKS as int)
    &&& sb.total_unalloc_blocks == spec_read_le32(data, SB_TOTAL_UNALLOC_BLOCKS as int)
    &&& sb.total_unalloc_inodes == spec_read_le32(data, SB_TOTAL_UNALLOC_INODES as int)
    &&& sb.superblock_block == spec_read_le32(data, SB_SUPERBLOCK_BLOCK as int)
    &&& sb.block_size == block_size
    &&& sb.blocks_per_group == blocks_per_group
    &&& sb.inodes_per_group == spec_read_le32(data, SB_INODES_PER_GROUP as int) as usize
    &&& sb.magic == spec_read_le16(data, SB_MAGIC as int)
    &&& sb.state == spec_read_le16(data, SB_STATE as int)
    &&& sb.device_id == device_id
    &&& sb.inode_size == spec_inode_size(data)
    &&& sb.inodes_per_block == block_size / spec_inode_size(data)
    &&& sb.total_block_groups == spec_ceiling_div(total_blocks as int, blocks_per_group as int)
}

/// The block size of a superblock read from its bytes is 2 to the power 10 plus the log block
/// size held little-endian in bytes 24..28: 1024 bytes for 0, 2048 for 1, 4096 for 2, and so on
/// (within the word for the larger logs).
pub proof fn lemma_superblock_block_size(sb: Ext2SuperBlock, device_id: DeviceID, data: Seq<u8>)
    requires
        superblock_matches(sb, device_id, data),
        data[24] + data[25] * 256 + data[26] * 65536 + data[27] * 16777216 < 54,
    ensures
        ({
            let log = data[24] + data[25] * 256 + data[26] * 65536 + data[27] * 16777216;
            &&& sb.block_size == vstd::arithmetic::power2::pow2((10 + log) as nat) as usize
            &&& log <= 21 ==> sb.block_size as int == vstd::arithmetic::power2::pow2((10 + log) as nat)
        }),
{
    let log = data[24] + data[25] * 256 + data[26] * 65536 + data[27] * 16777216;
    let l = spec_read_le32(data, SB_LOG_BLOCK_SIZE as int);
    assert(l as int == log);
    vstd::arithmetic::power2::lemma2_to64();
    vstd::arithmetic::power2::lemma_pow2_adds(21, 32);
    assert(vstd::arithmetic::power2::pow2(53) == 0x20_0000_0000_0000);
    if l < 53 {
        vstd::arithmetic::power2::lemma_pow2_strictly_increases(l as nat, 53);
        assert(vstd::arithmetic::power2::pow2(l as nat) < vstd::arithmetic::power2::pow2(53));
    } else {
        assert(l as nat == 53);
    }
    vstd::arithmetic::power2::lemma_pow2_adds(10, l as nat);
    let p = vstd::arithmetic::power2::pow2(l as nat);
    assert(p <= 0x20_0000_0000_0000);
    assert(1024 * p <= u64::MAX) by (nonlinear_arith) requires p <= 0x20_0000_0000_0000;
    vstd::bits::lemma_u64_shl_is_mul(1024u64, l as u64);
    assert((1024u64 << (l as u64)) as int == vstd::arithmetic::power2::pow2((10 + log) as nat));
    if log < 21 {
        vstd::arithmetic::power2::lemma_pow2_strictly_increases((10 + log) as nat, 31);
    }
}

/// Where reading a superblock takes its fields from, as ext2 lays out the superblock (each
/// field little-endian): the inode count from bytes 0..4, the block count from 4..8, the reserved
/// blocks from 8..12, the free blocks and free inodes from 12..16 and 16..20, the superblock's
/// block from 20..24, the blocks and inodes per group from 32..36 and 40..44, the magic number and
/// state from 56..58 and 58..60; the inode size is the value at 88..90 from revision 1 on (the
/// revision being at 76..80) and 128 before; the number of groups is the block count divided by
/// the blocks per group, rounded up.
pub proof fn lemma_superblock_fields_on_disk(sb: Ext2SuperBlock, device_id: DeviceID, data: Seq<u8>)
    requires
        superblock_matches(sb, device_id, data),
    ensures
        sb.total_inodes as int == data[0] + data[1] * 256 + data[2] * 65536 + data[3] * 16777216,
        sb.total_blocks as int == data[4] + data[5] * 256 + data[6] * 65536 + data[7] * 16777216,
        sb.reserved_su_blocks as int == data[8] + data[9] * 256 + data[10] * 65536 + data[11] * 16777216,
        sb.total_unalloc_blocks as int == data[12] + data[13] * 256 + data[14] * 65536 + data[15] * 16777216,
        sb.total_unalloc_inodes as int == data[16] + data[17] * 256 + data[18] * 65536 + data[19] * 16777216,
        sb.superblock_block as int == data[20] + data[21] * 256 + data[22] * 65536 + data[23] * 16777216,
        sb.blocks_per_group as int == data[32] + data[33] * 256 + data[34] * 65536 + data[35] * 16777216,
        sb.inodes_per_group as int == data[40] + data[41] * 256 + data[42] * 65536 + data[43] * 16777216,
        sb.magic as int == data[56] + data[57] * 256,
        sb.state as int == data[58] + data[59] * 256,
        sb.device_id == device_id,
        sb.inode_size as int == if data[76] + data[77] * 256 + data[78] * 65536 + data[79] * 16777216 >= 1 {
            data[88] + data[89] * 256 } else { 128 },
        sb.inode_size > 0 ==> sb.inodes_per_block == sb.block_size / sb.inode_size,
        sb.blocks_per_group > 0 ==> sb.total_block_groups as int
            == (sb.total_blocks + sb.blocks_per_group - 1) / (sb.blocks_per_group as int),
{
    let t = sb.total_blocks as int;
    let g = sb.blocks_per_group as int;
    if g > 0 {
        vstd::arithmetic::div_mod::lemma_fundamental_div_mod(t, g);
        vstd::arithmetic::div_mod::lemma_mod_bound(t, g);
        vstd::arithmetic::div_mod::lemma_fundamental_div_mod(t + g - 1, g);
        vstd::arithmetic::div_mod::lemma_mod_bound(t + g - 1, g);
        assert(t == (t / g) * g + t % g) by (nonlinear_arith) requires t == g * (t / g) + t % g;
        if t % g == 0 {
            vstd::arithmetic::div_mod::lemma_fundamental_div_mod_converse(t + g - 1, g, t / g, g - 1);
        } else {
            assert(t + g - 1 == (t / g + 1) * g + (t % g - 1)) by (nonlinear_arith)
                requires t == (t / g) * g + t % g;
            vstd::arithmetic::div_mod::lemma_fundamental_div_mod_converse(t + g - 1, g, t / g + 1, t % g - 1);
        }
    }
}

/// Where a block group descriptor's fields lie in a descriptor table, as ext2 lays them out:
/// descriptor `i` takes the 32 bytes from `32 * i`, with the block bitmap at 0..4, the inode
/// bitmap at 4..8, the inode table at 8..12 and the free block, free inode and directory counts
/// at 12..14, 14..16 and 16..18, each little-endian.
pub proof fn lemma_group_fields_on_disk(data: Seq<u8>, i: int)
    ensures
        ({
            let g = spec_group_at(data, i);
            let o = 32 * i;
            &&& g.block_bitmap as int == data[o] + data[o + 1] * 256 + data[o + 2] * 65536 + data[o + 3] * 16777216
            &&& g.inode_bitmap as int == data[o + 4] + data[o + 5] * 256 + data[o + 6] * 65536 + data[o + 7] * 16777216
            &&& g.inode_table as int == data[o + 8] + data[o + 9] * 256 + data[o + 10] * 65536 + data[o + 11] * 16777216
            &&& g.free_block_count as int == data[o + 12] + data[o + 13] * 256
            &&& g.free_inode_count as int == data[o + 14] + data[o + 15] * 256
            &&& g.used_dirs_count as int == data[o + 16] + data[o + 17] * 256
        }),
{
}

/// The block group descriptor `i` held in the bytes of a descriptor table.
pub open spec fn spec_group_at(data: Seq<u8>, i: int) -> Ext2BlockGroup {
    let off = i * EXT2_GROUP_DESCRIPTOR_SIZE;
    Ext2BlockGroup {
        block_bitmap: spec_read_le32(data, off),
        inode_bitmap: spec_read_le32(data, off + 4),
        inode_table: spec_read_le32(data, off + 8),
        free_block_count: spec_read_le16(data, off + 12),
        free_inode_count: spec_read_le16(data, off + 14),
        used_dirs_count: spec_read_le16(data, off + 16),
    }
}

/// Shifting 1024 left by less than the word's width.
fn size_from_log(log: u32) -> (r: usize)
    requires
        log < 64,
    ensures
        r == spec_size_from_log(log),
{
    (1024u64 << log as u64) as usize
}

impl Ext2SuperBlock {
    /// Reads the superblock from its bytes on disk, checking its magic number, that its block
    /// and fragment sizes agree and that it asks for no unsupported feature.
    pub fn read_superblock(device_id: DeviceID, data: &[u8]) -> (r: Result<Ext2SuperBlock, KernelError>)
        requires
            superblock_readable(data@),
        ensures
            match r {
                Ok(sb) => spec_superblock_error(data@) is None && superblock_matches(sb, device_id, data@)
                    && sb.groups@.len() == 0,
                Err(e) => spec_superblock_error(data@) == Some(e),
            },
    {
        let magic = read_le16(data, SB_MAGIC);
        if magic != EXT2_SUPERBLOCK_MAGIC {
            return Err(KernelError::InvalidSuperblock);
        }

        let block_size = size_from_log(read_le32(data, SB_LOG_BLOCK_SIZE));
        let fragment_size = size_from_log(read_le32(data, SB_LOG_FRAGMENT_SIZE));

        if block_size != fragment_size {
            return Err(KernelError::InvalidSuperblock);
        }

        let incompat_features = read_le32(data, SB_INCOMPAT_FEATURES);
        if (incompat_features & !EXT2_INCOMPAT_SUPPORTED) != 0 {
            return Err(KernelError::IncompatibleFeatures);
        }
        let inode_size = if read_le32(data, SB_MAJOR_VERSION) >= 1 { read_le16(data, SB_INODE_SIZE) as usize } else { 128 };
        let total_blocks = read_le32(data, SB_TOTAL_BLOCKS);
        let blocks_per_group = read_le32(data, SB_BLOCKS_PER_GROUP) as usize;
        let total_block_groups = ceiling_div(total_blocks as usize, blocks_per_group);

        Ok(Ext2SuperBlock {
            total_inodes: read_le32(data, SB_TOTAL_INODES),
            total_blocks,
            reserved_su_blocks: read_le32(data, SB_RESERVED_SU_BLOCKS),
            total_unalloc_blocks: read_le32(data, SB_TOTAL_UNALLOC_BLOCKS),
            total_unalloc_inodes: read_le32(data, SB_TOTAL_UNALLOC_INODES),
            superblock_block: read_le32(data, SB_SUPERBLOCK_BLOCK),
            block_size,
            blocks_per_group,
            inodes_per_group: read_le32(data, SB_INODES_PER_GROUP) as usize,
            magic,
            state: read_le16(data, SB_STATE),
            inode_size,
            inodes_per_block: block_size / inode_size,
            device_id,
            total_block_groups,
            groups: Vec::new(),
        })
    }

    /// The size of the filesystem's blocks.
    pub fn get_block_size(&self) -> (r: usize)
        ensures
            r == self.block_size,
    {
        self.block_size
    }
}

impl Ext2BlockGroup {
    /// Appends the first `total_block_groups` descriptors held in block `block_num` of the store.
    pub fn load_all(store: &BlockStore, block_num: BlockNum, groups: &mut Vec<Ext2BlockGroup>, total_block_groups: usize)
        -> (r: Result<(), KernelError>)
        requires
            store@.wf(),
            total_block_groups * EXT2_GROUP_DESCRIPTOR_SIZE <= store@.block_size,
        ensures
            match store@.read(block_num as int) {
                Err(e) => r == Err::<(), KernelError>(e) && final(groups)@ == old(groups)@,
                Ok(bytes) => r is Ok && final(groups)@ == old(groups)@
                    + Seq::new(total_block_groups as nat, |i: int| spec_group_at(bytes, i)),
            },
    {
        let buf = store.read_block(block_num)?;
        proof { crate::block::lemma_block_bounds(store@, block_num as int); }
        let n = buf.len();
        let ghost start = groups@;
        let mut i: usize = 0;
        while i < total_block_groups
            invariant
                0 <= i <= total_block_groups,
                total_block_groups * EXT2_GROUP_DESCRIPTOR_SIZE <= n,
                n == buf@.len(),
                groups@ == start + Seq::new(i as nat, |k: int| spec_group_at(buf@, k)),
            decreases total_block_groups - i,
        {
            assert(i * 32 + 32 <= total_block_groups * 32) by (nonlinear_arith)
                requires i < total_block_groups;
            let off = i * EXT2_GROUP_DESCRIPTOR_SIZE;
            let group = Ext2BlockGroup {
                block_bitmap: read_le32(buf.as_slice(), off),
                inode_bitmap: read_le32(buf.as_slice(), off + 4),
                inode_table: read_le32(buf.as_slice(), off + 8),
                free_block_count: read_le16(buf.as_slice(), off + 12),
                free_inode_count: read_le16(buf.as_slice(), off + 14),
                used_dirs_count: read_le16(buf.as_slice(), off + 16),
            };
            groups.push(group);
            i += 1;
            assert(groups@ =~= start + Seq::new(i as nat, |k: int| spec_group_at(buf@, k)));
        }
        Ok(())
    }
}

/// The superblock's bytes as read in blocks of 1024 bytes (the first block of 1024 bytes
/// after the boot block).
pub open spec fn spec_superblock_bytes(data: Seq<u8>) -> Seq<u8> {
    data.subrange(1024, 2048)
}

/// Loading the filesystem at hand shifts by less than the word, divides by no zero, makes no
/// zero block size and reads no group descriptor past its block.
pub open spec fn load_safe(data: Seq<u8>) -> bool {
    data.len() >= 2048 ==> {
        let sb = spec_superblock_bytes(data);
        &&& superblock_readable(sb)
        &&& spec_superblock_error(sb) is None ==> {
            let block_size = spec_size_from_log(spec_read_le32(sb, SB_LOG_BLOCK_SIZE as int));
            let groups = spec_ceiling_div(spec_read_le32(sb, SB_TOTAL_BLOCKS as int) as int,
                spec_read_le32(sb, SB_BLOCKS_PER_GROUP as int) as int);
            &&& block_size > 0
            &&& spec_read_le32(sb, SB_SUPERBLOCK_BLOCK as int) < u32::MAX
            &&& groups * EXT2_GROUP_DESCRIPTOR_SIZE <= block_size
        }
    }
}

impl Ext2SuperBlock {
    /// Reads the superblock of the filesystem on a device, switches the device to the
    /// filesystem's block size and reads the block group descriptors that follow it.
    pub fn load(device_id: DeviceID, store: &mut BlockStore) -> (r: Result<Ext2SuperBlock, KernelError>)
        requires
            old(store)@.wf(),
            load_safe(old(store)@.data),
        ensures
            final(store)@.wf(),
            final(store)@.data == old(store)@.data,
            ({
                let data = old(store)@.data;
                let first = BlockStoreView { block_size: 1024, data: data };
                match first.read(1) {
                    Err(e) => r == Err::<Ext2SuperBlock, KernelError>(e),
                    Ok(bytes) => match spec_superblock_error(bytes) {
                        Some(e) => r == Err::<Ext2SuperBlock, KernelError>(e),
                        None => {
                            let block_size = spec_size_from_log(spec_read_le32(bytes, SB_LOG_BLOCK_SIZE as int));
                            let second = BlockStoreView { block_size: block_size as nat, data: data };
                            &&& final(store)@.block_size == block_size
                            &&& match second.read(spec_read_le32(bytes, SB_SUPERBLOCK_BLOCK as int) + 1) {
                                Err(e) => r == Err::<Ext2SuperBlock, KernelError>(e),
                                Ok(table) => match r {
                                    Ok(sb) => superblock_matches(sb, device_id, bytes)
                                        && sb.groups@ == Seq::new(sb.total_block_groups as nat, |i: int| spec_group_at(table, i)),
                                    Err(_) => false,
                                },
                            }
                        },
                    },
                }
            }),
    {
        store.set_buf_size(1024)?;
        let data = store.read_block(1)?;
        proof {
            crate::block::lemma_block_bounds(store@, 1);
            assert(data@ =~= spec_superblock_bytes(store@.data));
        }
        let mut superblock = Ext2SuperBlock::read_superblock(device_id, data.as_slice())?;

        // Change the blocksize to the expected disk blocksize
        store.set_buf_size(superblock.block_size)?;

        let total = superblock.total_block_groups;
        Ext2BlockGroup::load_all(store, superblock.superblock_block + 1, &mut superblock.groups, total)?;
        Ok(superblock)
    }
}

/// True when byte `k` of a descriptor table holds a field of one of the first `n` descriptors.
pub open spec fn in_group_fields(k: int, n: int) -> bool {
    0 <= k < n * EXT2_GROUP_DESCRIPTOR_SIZE && k % (EXT2_GROUP_DESCRIPTOR_SIZE as int) < 18
}

/// The block that holds the superblock for the store's current block size: the second block
/// for blocks of 1024 bytes or less, else the first.
pub open spec fn spec_superblock_block_num(block_size: nat) -> int {
    if block_size <= 1024 { 1 } else { 0 }
}

impl Ext2BlockGroup {
    /// Writes the descriptors of `groups` into block `block_num` of the store.
    pub fn store_all(store: &mut BlockStore, block_num: BlockNum, groups: &Vec<Ext2BlockGroup>) -> (r: Result<(), KernelError>)
        requires
            old(store)@.wf(),
            groups@.len() * EXT2_GROUP_DESCRIPTOR_SIZE <= old(store)@.block_size,
        ensures
            final(store)@.wf(),
            final(store)@.block_size == old(store)@.block_size,
            final(store)@.data.len() == old(store)@.data.len(),
            match old(store)@.read(block_num as int) {
                Err(e) => r == Err::<(), KernelError>(e) && final(store)@ == old(store)@,
                Ok(bytes) => r is Ok && exists|new_bytes: Seq<u8>| {
                    &&& final(store)@ == old(store)@.set_block(block_num as int, new_bytes)
                    &&& new_bytes.len() == bytes.len()
                    &&& forall|i: int| 0 <= i < groups@.len() ==> #[trigger] spec_group_at(new_bytes, i) == groups@[i]
                    &&& forall|k: int| 0 <= k < bytes.len() && !in_group_fields(k, groups@.len() as int)
                        ==> #[trigger] new_bytes[k] == bytes[k]
                },
            },
    {
        let mut buf = store.read_block(block_num)?;
        proof { crate::block::lemma_block_bounds(store@, block_num as int); }
        let ghost orig = buf@;
        let n = buf.len();
        let mut i: usize = 0;
        while i < groups.len()
            invariant
                0 <= i <= groups@.len(),
                groups@.len() * EXT2_GROUP_DESCRIPTOR_SIZE <= n,
                n == buf@.len(),
                n == orig.len(),
                forall|j: int| 0 <= j < i ==> #[trigger] spec_group_at(buf@, j) == groups@[j],
                forall|k: int| 0 <= k < n && !in_group_fields(k, i as int) ==> #[trigger] buf@[k] == orig[k],
            decreases groups@.len() - i,
        {
            assert(i * 32 + 32 <= groups@.len() * 32) by (nonlinear_arith)
                requires i < groups@.len();
            let off = i * EXT2_GROUP_DESCRIPTOR_SIZE;
            let group = groups[i];
            let ghost before = buf@;
            write_le32(&mut buf, off, group.block_bitmap);
            write_le32(&mut buf, off + 4, group.inode_bitmap);
            write_le32(&mut buf, off + 8, group.inode_table);
            write_le16(&mut buf, off + 12, group.free_block_count);
            write_le16(&mut buf, off + 14, group.free_inode_count);
            write_le16(&mut buf, off + 16, group.used_dirs_count);
            proof {
                assert forall|k: int| 0 <= k < n && !(off <= k < off + 18) implies #[trigger] buf@[k] == before[k] by {}
                assert forall|j: int| 0 <= j < i + 1 implies #[trigger] spec_group_at(buf@, j) == groups@[j] by {
                    if j < i {
                        assert(j * 32 + 32 <= off) by (nonlinear_arith) requires j < i, off == i * 32;
                        assert(spec_group_at(before, j) == groups@[j]);
                    }
                }
                assert forall|k: int| 0 <= k < n && !in_group_fields(k, (i + 1) as int) implies #[trigger] buf@[k] == orig[k] by {
                    assert(!in_group_fields(k, i as int));
                    if off <= k < off + 18 {
                        assert(k % 32 == k - off) by (nonlinear_arith) requires off == i * 32, off <= k < off + 18;
                        assert(k < (i + 1) * 32) by (nonlinear_arith) requires off == i * 32, k < off + 18;
                    }
                }
            }
            i += 1;
        }
        store.write_block(block_num, &buf)?;
        Ok(())
    }
}

impl Ext2SuperBlock {
    /// Writes the superblock's counts of unallocated blocks and inodes and its state back into
    /// the block that holds the superblock.
    pub fn update_superblock(&self, store: &mut BlockStore) -> (r: Result<(), KernelError>)
        requires
            old(store)@.wf(),
            old(store)@.block_size >= SB_SIZE,
        ensures
            final(store)@.wf(),
            final(store)@.block_size == old(store)@.block_size,
            final(store)@.data.len() == old(store)@.data.len(),
            ({
                let num = spec_superblock_block_num(old(store)@.block_size);
                match old(store)@.read(num) {
                    Err(e) => r == Err::<(), KernelError>(e) && final(store)@ == old(store)@,
                    Ok(bytes) => r is Ok && exists|new_bytes: Seq<u8>| {
                        &&& final(store)@ == old(store)@.set_block(num, new_bytes)
                        &&& new_bytes.len() == bytes.len()
                        &&& spec_read_le32(new_bytes, SB_TOTAL_UNALLOC_BLOCKS as int) == self.total_unalloc_blocks
                        &&& spec_read_le32(new_bytes, SB_TOTAL_UNALLOC_INODES as int) == self.total_unalloc_inodes
                        &&& spec_read_le16(new_bytes, SB_STATE as int) == self.state
                        &&& forall|k: int| 0 <= k < bytes.len() && !(12 <= k < 20) && !(58 <= k < 60)
                            ==> #[trigger] new_bytes[k] == bytes[k]
                    },
                }
            }),
    {
        let block_size = store.get_buf_size();
        let superblock_block = if block_size <= 1024 { 1 } else { 0 };
        let mut buf = store.read_block(superblock_block)?;
        proof { crate::block::lemma_block_bounds(store@, superblock_block as int); }
        let ghost orig = buf@;
        write_le32(&mut buf, SB_TOTAL_UNALLOC_BLOCKS, self.total_unalloc_blocks);
        write_le32(&mut buf, SB_TOTAL_UNALLOC_INODES, self.total_unalloc_inodes);
        write_le16(&mut buf, SB_STATE, self.state);
        store.write_block(superblock_block, &buf)?;
        Ok(())
    }

    /// Writes the superblock's counts and the block group descriptors back to the store.
    pub fn store(&self, store: &mut BlockStore) -> (r: Result<(), KernelError>)
        requires
            old(store)@.wf(),
            old(store)@.block_size >= SB_SIZE,
            self.superblock_block < u32::MAX,
            self.groups@.len() * EXT2_GROUP_DESCRIPTOR_SIZE <= old(store)@.block_size,
        ensures
            final(store)@.wf(),
            final(store)@.block_size == old(store)@.block_size,
            final(store)@.data.len() == old(store)@.data.len(),
            r is Ok <==> old(store)@.has_block(spec_superblock_block_num(old(store)@.block_size))
                && old(store)@.has_block(self.superblock_block + 1),
            r is Ok ==> {
                let table = self.superblock_block + 1;
                let num = spec_superblock_block_num(old(store)@.block_size);
                &&& final(store)@.read(table as int) matches Ok(t)
                    && forall|i: int| 0 <= i < self.groups@.len() ==> #[trigger] spec_group_at(t, i) == self.groups@[i]
                &&& table != num ==> (final(store)@.read(num) matches Ok(b)
                    && spec_read_le32(b, SB_TOTAL_UNALLOC_BLOCKS as int) == self.total_unalloc_blocks
                    && spec_read_le32(b, SB_TOTAL_UNALLOC_INODES as int) == self.total_unalloc_inodes
                    && spec_read_le16(b, SB_STATE as int) == self.state)
            },
    {
        let ghost s0 = store@;
        self.update_superblock(store)?;
        let ghost s1 = store@;
        let table = self.superblock_block + 1;
        Ext2BlockGroup::store_all(store, table, &self.groups)?;
        proof {
            let num = spec_superblock_block_num(s0.block_size);
            let nb1 = choose|new_bytes: Seq<u8>| {
                &&& s1 == s0.set_block(num, new_bytes)
                &&& new_bytes.len() == s0.block(num).len()
                &&& spec_read_le32(new_bytes, SB_TOTAL_UNALLOC_BLOCKS as int) == self.total_unalloc_blocks
                &&& spec_read_le32(new_bytes, SB_TOTAL_UNALLOC_INODES as int) == self.total_unalloc_inodes
                &&& spec_read_le16(new_bytes, SB_STATE as int) == self.state
                &&& forall|k: int| 0 <= k < s0.block(num).len() && !(12 <= k < 20) && !(58 <= k < 60)
                    ==> #[trigger] new_bytes[k] == s0.block(num)[k]
            };
            let nb2 = choose|new_bytes: Seq<u8>| {
                &&& store@ == s1.set_block(table as int, new_bytes)
                &&& new_bytes.len() == s1.block(table as int).len()
                &&& forall|i: int| 0 <= i < self.groups@.len() ==> #[trigger] spec_group_at(new_bytes, i) == self.groups@[i]
                &&& forall|k: int| 0 <= k < s1.block(table as int).len() && !in_group_fields(k, self.groups@.len() as int)
                    ==> #[trigger] new_bytes[k] == s1.block(table as int)[k]
            };
            crate::block::lemma_block_bounds(s1, table as int);
            crate::block::lemma_read_after_write(s1, table as int, num, nb2);
            if table != num {
                crate::block::lemma_block_bounds(s0, num);
                assert(s0.block(num).len() == s0.block_size);
                crate::block::lemma_read_after_write(s0, num, num, nb1);
            }
        }
        Ok(())
    }
}

/// The distance from `start` to `i` going forwards around `n` groups.
pub open spec fn cyclic_dist(i: int, start: int, n: int) -> int {
    if i >= start { i - start } else { i + n - start }
}

/// The free count of a group that a search looks at: inodes or blocks.
pub open spec fn group_free(g: Ext2BlockGroup, inodes: bool) -> u16 {
    if inodes { g.free_inode_count } else { g.free_block_count }
}

/// True when `g` is the first group from `start` onwards (going around) with a free item.
pub open spec fn is_first_free_group(groups: Seq<Ext2BlockGroup>, start: int, g: int, inodes: bool) -> bool {
    &&& 0 <= g < groups.len()
    &&& group_free(groups[g], inodes) >= 1
    &&& forall|j: int| 0 <= j < groups.len() && cyclic_dist(j, start, groups.len() as int) < cyclic_dist(g, start, groups.len() as int)
        ==> group_free(#[trigger] groups[j], inodes) < 1
}

/// True when no group has a free item.
pub open spec fn no_free_group(groups: Seq<Ext2BlockGroup>, inodes: bool) -> bool {
    forall|j: int| 0 <= j < groups.len() ==> group_free(#[trigger] groups[j], inodes) < 1
}

/// The first group from `start` onwards with a free item, if any.
pub open spec fn spec_first_free_group(groups: Seq<Ext2BlockGroup>, start: int, inodes: bool) -> Option<int> {
    if exists|g: int| is_first_free_group(groups, start, g, inodes) {
        Some(choose|g: int| is_first_free_group(groups, start, g, inodes))
    } else {
        None
    }
}

/// The first byte of a bitmap with a clear bit, if any, among the first `size` bytes.
pub open spec fn spec_first_free_byte(table: Seq<u8>, size: int) -> Option<int> {
    if exists|i: int| is_first_free_byte(table, size, i) {
        Some(choose|i: int| is_first_free_byte(table, size, i))
    } else {
        None
    }
}

/// There is one first group with a free item.
pub proof fn lemma_first_free_group_unique(groups: Seq<Ext2BlockGroup>, start: int, g: int, h: int, inodes: bool)
    requires
        0 <= start < groups.len(),
        is_first_free_group(groups, start, g, inodes),
        is_first_free_group(groups, start, h, inodes),
    ensures
        g == h,
{
    let n = groups.len() as int;
    if cyclic_dist(g, start, n) < cyclic_dist(h, start, n) {
        assert(group_free(groups[g], inodes) < 1);
    } else if cyclic_dist(h, start, n) < cyclic_dist(g, start, n) {
        assert(group_free(groups[h], inodes) < 1);
    }
}

/// There is one first byte with a clear bit.
pub proof fn lemma_first_free_byte_unique(table: Seq<u8>, size: int, i: int, j: int)
    requires
        is_first_free_byte(table, size, i),
        is_first_free_byte(table, size, j),
    ensures
        i == j,
{
}

/// The bitmap of the group that an allocation from `start` picks can be scanned for
/// `per_group` bytes without running past its block.
pub open spec fn bitmap_scannable(store: BlockStoreView, groups: Seq<Ext2BlockGroup>, start: int, per_group: usize, inodes: bool) -> bool {
    match spec_first_free_group(groups, start, inodes) {
        None => true,
        Some(g) => {
            let bm = group_bitmap(groups[g], inodes) as int;
            store.has_block(bm) ==> (per_group <= store.block_size || !bitmap_full(store.block(bm), store.block_size as int))
        },
    }
}

impl Ext2SuperBlock {
    /// The sizes that the superblock divides by are positive, its group table holds every
    /// group, and the numbers it computes from them fit in a word.
    pub open spec fn wf(&self) -> bool {
        &&& self.block_size > 0
        &&& self.inodes_per_group > 0
        &&& self.blocks_per_group > 0
        &&& self.inodes_per_block > 0
        &&& self.groups@.len() == self.total_block_groups
        &&& (self.groups@.len() + 1) * self.inodes_per_group + 8 * self.block_size + 8 <= usize::MAX
        &&& (self.groups@.len() + 1) * self.blocks_per_group + 8 * self.block_size + 8 <= usize::MAX
    }

    /// The group of an inode and its index within the group, or `InvalidInode`.
    pub open spec fn spec_inode_group_and_offset(&self, inode_num: u32) -> Result<(int, int), KernelError> {
        let group = (inode_num - 1) / (self.inodes_per_group as int);
        if inode_num >= self.total_inodes || group >= self.groups@.len() {
            Err(KernelError::InvalidInode)
        } else {
            Ok((group, (inode_num - 1) % (self.inodes_per_group as int)))
        }
    }

    /// The group of a block and its index within the group, or `InvalidInode`.
    pub open spec fn spec_block_group_and_offset(&self, block_num: u32) -> Result<(int, int), KernelError> {
        let group = (block_num as int) / (self.blocks_per_group as int);
        if block_num >= self.total_blocks || group >= self.groups@.len() {
            Err(KernelError::InvalidInode)
        } else {
            Ok((group, (block_num as int) % (self.blocks_per_group as int)))
        }
    }

    /// The block of the inode table that holds an inode and the inode's offset in it.
    pub open spec fn spec_inode_entry_location(&self, inode_num: u32) -> Result<(int, int), KernelError> {
        match self.spec_inode_group_and_offset(inode_num) {
            Err(e) => Err(e),
            Ok((group, group_inode)) => Ok((
                self.groups@[group].inode_table + group_inode / (self.inodes_per_block as int),
                (group_inode % (self.inodes_per_block as int)) * self.inode_size,
            )),
        }
    }

    /// The location of an inode can be computed without overflow.
    pub open spec fn inode_entry_computable(&self, inode_num: u32) -> bool {
        match self.spec_inode_entry_location(inode_num) {
            Ok((block, offset)) => block <= u32::MAX && offset <= usize::MAX,
            Err(_) => true,
        }
    }

    /// Finds the group of an inode and its index within the group.
    pub fn get_inode_group_and_offset(&self, inode_num: u32) -> (r: Result<(usize, u32), KernelError>)
        requires
            self.wf(),
            inode_num >= 1,
        ensures
            match r {
                Ok((g, i)) => self.spec_inode_group_and_offset(inode_num) == Ok::<(int, int), KernelError>((g as int, i as int)),
                Err(e) => self.spec_inode_group_and_offset(inode_num) == Err::<(int, int), KernelError>(e),
            },
    {
        let group = (inode_num as usize - 1) / self.inodes_per_group;
        let group_inode = (inode_num as usize - 1) % self.inodes_per_group;

        if inode_num >= self.total_inodes || group >= self.groups.len() {
            return Err(KernelError::InvalidInode);
        }
        proof { vstd::arithmetic::div_mod::lemma_mod_decreases((inode_num - 1) as nat, self.inodes_per_group as nat); }
        Ok((group, group_inode as u32))
    }

    /// Finds the group of a block and its index within the group.
    pub fn get_block_group_and_offset(&self, block_num: u32) -> (r: Result<(usize, usize), KernelError>)
        requires
            self.wf(),
        ensures
            match r {
                Ok((g, i)) => self.spec_block_group_and_offset(block_num) == Ok::<(int, int), KernelError>((g as int, i as int)),
                Err(e) => self.spec_block_group_and_offset(block_num) == Err::<(int, int), KernelError>(e),
            },
    {
        let group = block_num as usize / self.blocks_per_group;
        let group_block = block_num as usize % self.blocks_per_group;

        if block_num >= self.total_blocks || group >= self.groups.len() {
            return Err(KernelError::InvalidInode);
        }
        Ok((group, group_block))
    }

    /// Finds the block of the inode table that holds an inode and the inode's offset in it.
    pub fn get_inode_entry_location(&self, inode_num: u32) -> (r: Result<(BlockNum, usize), KernelError>)
        requires
            self.wf(),
            inode_num >= 1,
            self.inode_entry_computable(inode_num),
        ensures
            match r {
                Ok((b, o)) => self.spec_inode_entry_location(inode_num) == Ok::<(int, int), KernelError>((b as int, o as int)),
                Err(e) => self.spec_inode_entry_location(inode_num) == Err::<(int, int), KernelError>(e),
            },
    {
        let (group, group_inode) = self.get_inode_group_and_offset(inode_num)?;
        let ipb = self.inodes_per_block;
        let block = self.groups[group].inode_table as usize + group_inode as usize / ipb;
        let offset = (group_inode as usize % ipb) * self.inode_size;
        Ok((block as u32, offset))
    }

    /// Finds the block of the inode bitmap that holds an inode's bit and the bit's number.
    pub fn get_inode_bitmap_location(&self, inode_num: u32) -> (r: Result<(BlockNum, usize), KernelError>)
        requires
            self.wf(),
            inode_num >= 1,
        ensures
            match r {
                Ok((b, i)) => match self.spec_inode_group_and_offset(inode_num) {
                    Ok((g, gi)) => b == self.groups@[g].inode_bitmap && i == gi,
                    Err(_) => false,
                },
                Err(e) => self.spec_inode_group_and_offset(inode_num) == Err::<(int, int), KernelError>(e),
            },
    {
        let (group, group_inode) = self.get_inode_group_and_offset(inode_num)?;
        Ok((self.groups[group].inode_bitmap, group_inode as usize))
    }

    /// Checks that an inode's bit is set in its group's inode bitmap.
    pub fn check_inode_is_allocated(&self, store: &BlockStore, inode_num: u32) -> (r: Result<(), KernelError>)
        requires
            self.wf(),
            store@.wf(),
            inode_num >= 1,
            self.inodes_per_group <= 8 * store@.block_size,
        ensures
            match self.spec_inode_group_and_offset(inode_num) {
                Err(e) => r == Err::<(), KernelError>(e),
                Ok((g, gi)) => match store@.read(self.groups@[g].inode_bitmap as int) {
                    Err(e) => r == Err::<(), KernelError>(e),
                    Ok(bytes) => if bit_is_set(bytes, gi) { r is Ok } else { r == Err::<(), KernelError>(KernelError::InvalidInode) },
                },
            },
    {
        let (group, group_inode) = self.get_inode_group_and_offset(inode_num)?;
        let buf = store.read_block(self.groups[group].inode_bitmap)?;
        proof {
            crate::block::lemma_block_bounds(store@, self.groups@[group as int].inode_bitmap as int);
            assert(group_inode / 8 < buf@.len()) by (nonlinear_arith)
                requires group_inode < self.inodes_per_group, self.inodes_per_group <= 8 * store@.block_size,
                    buf@.len() == store@.block_size;
        }
        if bit_set(&buf, group_inode as usize) {
            Ok(())
        } else {
            Err(KernelError::InvalidInode)
        }
    }

    /// Finds the first group from `starting_group` onwards (going around) with a free item.
    pub fn find_free_group(&self, starting_group: usize, inodes: bool) -> (r: Option<usize>)
        requires
            self.wf(),
            starting_group < self.groups@.len(),
            starting_group != 0 || !no_free_group(self.groups@, inodes),
        ensures
            match r {
                Some(g) => is_first_free_group(self.groups@, starting_group as int, g as int, inodes)
                    && spec_first_free_group(self.groups@, starting_group as int, inodes) == Some(g as int),
                None => no_free_group(self.groups@, inodes)
                    && spec_first_free_group(self.groups@, starting_group as int, inodes) is None,
            },
    {
        let n = self.total_block_groups;
        let ghost start = starting_group as int;
        let mut group = starting_group;
        loop
            invariant
                self.wf(),
                n == self.groups@.len(),
                0 <= start < n,
                start == starting_group,
                0 <= group < n,
                start != 0 || !no_free_group(self.groups@, inodes),
                forall|j: int| 0 <= j < n && cyclic_dist(j, start, n as int) < cyclic_dist(group as int, start, n as int)
                    ==> group_free(#[trigger] self.groups@[j], inodes) < 1,
            decreases n - cyclic_dist(group as int, start, n as int),
        {
            let free = if inodes { self.groups[group].free_inode_count } else { self.groups[group].free_block_count };
            if free >= 1 {
                proof {
                    assert(is_first_free_group(self.groups@, start, group as int, inodes));
                    let c = choose|g: int| is_first_free_group(self.groups@, start, g, inodes);
                    lemma_first_free_group_unique(self.groups@, start, group as int, c, inodes);
                }
                return Some(group);
            }

            let ghost prev = group as int;
            group += 1;
            if group == starting_group {
                proof {
                    assert forall|j: int| 0 <= j < n implies group_free(#[trigger] self.groups@[j], inodes) < 1 by {
                        if j != prev {
                            assert(cyclic_dist(j, start, n as int) < cyclic_dist(prev, start, n as int));
                        }
                    }
                    assert(!exists|g: int| is_first_free_group(self.groups@, start, g, inodes));
                }
                return None;
            } else if group >= n {
                group = 0;
                proof {
                    if start == 0 {
                        assert forall|j: int| 0 <= j < n implies group_free(#[trigger] self.groups@[j], inodes) < 1 by {
                            if j != prev {
                                assert(cyclic_dist(j, start, n as int) < cyclic_dist(prev, start, n as int));
                            }
                        }
                        assert(false);
                    }
                }
            }
            proof {
                assert forall|j: int| 0 <= j < n && cyclic_dist(j, start, n as int) < cyclic_dist(group as int, start, n as int)
                    implies group_free(#[trigger] self.groups@[j], inodes) < 1 by {
                    if j != prev {
                        assert(cyclic_dist(j, start, n as int) < cyclic_dist(prev, start, n as int));
                    }
                }
            }
        }
    }
}

/// A group descriptor with one fewer free inode (or block).
pub open spec fn spec_take_free(g: Ext2BlockGroup, inodes: bool) -> Ext2BlockGroup {
    if inodes {
        Ext2BlockGroup { free_inode_count: (g.free_inode_count - 1) as u16, ..g }
    } else {
        Ext2BlockGroup { free_block_count: (g.free_block_count - 1) as u16, ..g }
    }
}

/// A group descriptor with one more free inode (or block).
pub open spec fn spec_give_free(g: Ext2BlockGroup, inodes: bool) -> Ext2BlockGroup {
    if inodes {
        Ext2BlockGroup { free_inode_count: (g.free_inode_count + 1) as u16, ..g }
    } else {
        Ext2BlockGroup { free_block_count: (g.free_block_count + 1) as u16, ..g }
    }
}

/// The bitmap block of a group for inodes (or blocks).
pub open spec fn group_bitmap(g: Ext2BlockGroup, inodes: bool) -> u32 {
    if inodes { g.inode_bitmap } else { g.block_bitmap }
}

/// Two superblocks agree in every field but the group table and the free counts.
pub open spec fn same_layout(a: Ext2SuperBlock, b: Ext2SuperBlock) -> bool {
    &&& a.total_inodes == b.total_inodes
    &&& a.total_blocks == b.total_blocks
    &&& a.reserved_su_blocks == b.reserved_su_blocks
    &&& a.superblock_block == b.superblock_block
    &&& a.block_size == b.block_size
    &&& a.blocks_per_group == b.blocks_per_group
    &&& a.inodes_per_group == b.inodes_per_group
    &&& a.magic == b.magic
    &&& a.state == b.state
    &&& a.inode_size == b.inode_size
    &&& a.inodes_per_block == b.inodes_per_block
    &&& a.device_id == b.device_id
    &&& a.total_block_groups == b.total_block_groups
}

/// The free count of inodes (or blocks) of a whole filesystem.
pub open spec fn total_free(sb: Ext2SuperBlock, inodes: bool) -> u32 {
    if inodes { sb.total_unalloc_inodes } else { sb.total_unalloc_blocks }
}

/// The superblock and the store after allocating an item from the first group from `start`
/// onwards that has one: the item's number within all groups (counted from zero), or the error.
pub open spec fn spec_alloc_item(sb: Ext2SuperBlock, store: BlockStoreView, start: int, inodes: bool)
    -> Result<(int, int, Seq<u8>), KernelError>
{
    let per_group = if inodes { sb.inodes_per_group } else { sb.blocks_per_group };
    match spec_first_free_group(sb.groups@, start, inodes) {
        None => Err(KernelError::OutOfDiskSpace),
        Some(g) => match store.read(group_bitmap(sb.groups@[g], inodes) as int) {
            Err(e) => Err(e),
            Ok(bytes) => match spec_first_free_byte(bytes, per_group as int) {
                None => Err(KernelError::OutOfDiskSpace),
                Some(i) => {
                    let b = spec_first_clear_bit(bytes[i]);
                    Ok((g, g * per_group + i * 8 + b, bytes.update(i, bytes[i] | (1u8 << (b as u8)))))
                },
            },
        },
    }
}

impl Ext2SuperBlock {
    /// Allocates an inode (or block): takes the first clear bit of the bitmap of the first
    /// group from `starting_group` onwards with a free one, and counts it as used.
    /// Gives the item's number within all groups, counted from zero.
    fn alloc_item(&mut self, store: &mut BlockStore, starting_group: usize, inodes: bool) -> (r: Result<usize, KernelError>)
        requires
            old(self).wf(),
            old(store)@.wf(),
            old(store)@.block_size == old(self).block_size,
            starting_group < old(self).groups@.len(),
            starting_group != 0 || !no_free_group(old(self).groups@, inodes),
            bitmap_scannable(old(store)@, old(self).groups@, starting_group as int,
                if inodes { old(self).inodes_per_group } else { old(self).blocks_per_group }, inodes),
            !no_free_group(old(self).groups@, inodes) ==> total_free(*old(self), inodes) >= 1,
        ensures
            final(self).wf(),
            same_layout(*final(self), *old(self)),
            final(store)@.wf(),
            final(store)@.block_size == old(store)@.block_size,
            final(store)@.data.len() == old(store)@.data.len(),
            total_free(*final(self), !inodes) == total_free(*old(self), !inodes),
            r matches Ok(n) ==> n < usize::MAX,
            match spec_alloc_item(*old(self), old(store)@, starting_group as int, inodes) {
                Err(e) => r == Err::<usize, KernelError>(e) && final(store)@ == old(store)@
                    && final(self).groups@ == old(self).groups@
                    && total_free(*final(self), inodes) == total_free(*old(self), inodes),
                Ok((g, n, bitmap)) => r == Ok::<usize, KernelError>(n as usize) && 0 <= n < usize::MAX
                    && final(store)@ == old(store)@.set_block(group_bitmap(old(self).groups@[g], inodes) as int, bitmap)
                    && final(self).groups@ == old(self).groups@.update(g, spec_take_free(old(self).groups@[g], inodes))
                    && total_free(*final(self), inodes) == total_free(*old(self), inodes) - 1,
            },
    {
        let per_group = if inodes { self.inodes_per_group } else { self.blocks_per_group };
        let found = self.find_free_group(starting_group, inodes);
        let group = match found {
            None => return Err(KernelError::OutOfDiskSpace),
            Some(g) => g,
        };
        let descriptor = self.groups[group];
        let bitmap = if inodes { descriptor.inode_bitmap } else { descriptor.block_bitmap };
        let mut buf = store.read_block(bitmap)?;
        proof {
            crate::block::lemma_block_bounds(store@, bitmap as int);
            assert(group_free(self.groups@[group as int], inodes) >= 1);
        }
        let ghost bytes = buf@;
        let bit = match alloc_bit(&mut buf, per_group) {
            Some(b) => b,
            None => {
                proof {
                    assert(!exists|i: int| is_first_free_byte(bytes, per_group as int, i));
                }
                return Err(KernelError::OutOfDiskSpace);
            },
        };
        proof {
            let i = bit as int / 8;
            let c = choose|j: int| is_first_free_byte(bytes, per_group as int, j);
            lemma_first_free_byte_unique(bytes, per_group as int, i, c);
            assert(bit as int == i * 8 + bit as int % 8);
            assert(i < bytes.len());
            assert(bit < 8 * self.block_size + 8);
            assert(group * per_group + bit < (self.groups@.len() + 1) * per_group + 8 * self.block_size + 8) by (nonlinear_arith)
                requires group < self.groups@.len(), bit < 8 * self.block_size + 8, per_group > 0;
        }
        let ghost new_bitmap = buf@;
        let _ = store.write_block(bitmap, &buf);

        let mut updated = descriptor;
        if inodes {
            updated.free_inode_count = descriptor.free_inode_count - 1;
            self.total_unalloc_inodes = self.total_unalloc_inodes - 1;
        } else {
            updated.free_block_count = descriptor.free_block_count - 1;
            self.total_unalloc_blocks = self.total_unalloc_blocks - 1;
        }
        self.groups.set(group, updated);
        assert(updated == spec_take_free(descriptor, inodes));

        Ok((group * per_group) + bit)
    }

    /// Allocates an inode, looking first in the group of inode `start_from`.
    pub fn alloc_inode(&mut self, store: &mut BlockStore, start_from: u32) -> (r: Result<u32, KernelError>)
        requires
            old(self).wf(),
            old(store)@.wf(),
            old(store)@.block_size == old(self).block_size,
            (start_from as int) / (old(self).inodes_per_group as int) < old(self).groups@.len(),
            (start_from as int) / (old(self).inodes_per_group as int) != 0 || !no_free_group(old(self).groups@, true),
            bitmap_scannable(old(store)@, old(self).groups@,
                (start_from as int) / (old(self).inodes_per_group as int), old(self).inodes_per_group, true),
            !no_free_group(old(self).groups@, true) ==> old(self).total_unalloc_inodes >= 1,
        ensures
            final(self).wf(),
            same_layout(*final(self), *old(self)),
            final(self).total_unalloc_blocks == old(self).total_unalloc_blocks,
            final(store)@.wf(),
            final(store)@.block_size == old(store)@.block_size,
            final(store)@.data.len() == old(store)@.data.len(),
            match spec_alloc_item(*old(self), old(store)@,
                (start_from as int) / (old(self).inodes_per_group as int), true) {
                Err(e) => r == Err::<u32, KernelError>(e) && final(store)@ == old(store)@
                    && final(self).groups@ == old(self).groups@
                    && final(self).total_unalloc_inodes == old(self).total_unalloc_inodes,
                Ok((g, n, bitmap)) => r == Ok::<u32, KernelError>((n + 1) as u32)
                    && final(store)@ == old(store)@.set_block(old(self).groups@[g].inode_bitmap as int, bitmap)
                    && final(self).groups@ == old(self).groups@.update(g, spec_take_free(old(self).groups@[g], true))
                    && final(self).total_unalloc_inodes == old(self).total_unalloc_inodes - 1,
            },
    {
        let starting_group = start_from as usize / self.inodes_per_group;
        assert(starting_group as int == (start_from as int) / (self.inodes_per_group as int));
        let n = self.alloc_item(store, starting_group, true)?;
        Ok((n + 1) as u32)
    }

    /// Fills a block with zeroes.
    pub fn zero_block(&self, store: &mut BlockStore, block_num: u32) -> (r: Result<(), KernelError>)
        requires
            old(store)@.wf(),
        ensures
            final(store)@.wf(),
            final(store)@.block_size == old(store)@.block_size,
            final(store)@.data.len() == old(store)@.data.len(),
            if old(store)@.has_block(block_num as int) {
                r is Ok && final(store)@ == old(store)@.set_block(block_num as int,
                    Seq::new(old(store)@.block_size, |i: int| 0u8))
            } else {
                r == Err::<(), KernelError>(KernelError::IOError) && final(store)@ == old(store)@
            },
    {
        if !store.has_block(block_num) {
            return Err(KernelError::IOError);
        }
        let size = store.get_buf_size();
        let mut zeroes: Vec<u8> = Vec::new();
        let mut i: usize = 0;
        while i < size
            invariant
                0 <= i <= size,
                zeroes@ == Seq::new(i as nat, |k: int| 0u8),
            decreases size - i,
        {
            zeroes.push(0);
            i += 1;
            assert(zeroes@ =~= Seq::new(i as nat, |k: int| 0u8));
        }
        store.write_block(block_num, &zeroes)
    }

    /// Allocates a block, looking first in the group of inode `start_from_inode`, and zeroes it.
    pub fn alloc_block(&mut self, store: &mut BlockStore, start_from_inode: u32) -> (r: Result<u32, KernelError>)
        requires
            old(self).wf(),
            old(store)@.wf(),
            old(store)@.block_size == old(self).block_size,
            (start_from_inode as int) / (old(self).inodes_per_group as int) < old(self).groups@.len(),
            (start_from_inode as int) / (old(self).inodes_per_group as int) != 0 || !no_free_group(old(self).groups@, false),
            bitmap_scannable(old(store)@, old(self).groups@,
                (start_from_inode as int) / (old(self).inodes_per_group as int), old(self).blocks_per_group, false),
            !no_free_group(old(self).groups@, false) ==> old(self).total_unalloc_blocks >= 1,
        ensures
            final(self).wf(),
            same_layout(*final(self), *old(self)),
            final(self).total_unalloc_inodes == old(self).total_unalloc_inodes,
            final(store)@.wf(),
            final(store)@.block_size == old(store)@.block_size,
            final(store)@.data.len() == old(store)@.data.len(),
            alloc_block_outcome(*old(self), *final(self), old(store)@, final(store)@, start_from_inode, r),
    {
        let starting_group = start_from_inode as usize / self.inodes_per_group;
        assert(starting_group as int == (start_from_inode as int) / (self.inodes_per_group as int));
        let n = self.alloc_item(store, starting_group, false)?;
        let block_num = n as u32;
        self.zero_block(store, block_num)?;
        Ok(block_num)
    }
}

/// The bitmap after clearing bit `bitnum`.
pub open spec fn spec_clear_bit(table: Seq<u8>, bitnum: int) -> Seq<u8> {
    table.update(bitnum / 8, table[bitnum / 8] & !(1u8 << ((bitnum % 8) as u8)))
}

/// The counts can take one more free item in the given group.
pub open spec fn can_free_in(sb: Ext2SuperBlock, g: int, inodes: bool) -> bool {
    &&& group_free(sb.groups@[g], inodes) < u16::MAX
    &&& total_free(sb, inodes) < u32::MAX
}

impl Ext2SuperBlock {
    /// Clears the bit of item `index` of group `group` and counts it as free.
    fn free_item(&mut self, store: &mut BlockStore, group: usize, index: usize, inodes: bool) -> (r: Result<(), KernelError>)
        requires
            old(self).wf(),
            old(store)@.wf(),
            old(store)@.block_size == old(self).block_size,
            group < old(self).groups@.len(),
            index / 8 < old(store)@.block_size,
            can_free_in(*old(self), group as int, inodes),
        ensures
            final(self).wf(),
            same_layout(*final(self), *old(self)),
            final(store)@.wf(),
            final(store)@.block_size == old(store)@.block_size,
            total_free(*final(self), !inodes) == total_free(*old(self), !inodes),
            ({
                let bm = group_bitmap(old(self).groups@[group as int], inodes) as int;
                match old(store)@.read(bm) {
                    Err(e) => r == Err::<(), KernelError>(e) && final(store)@ == old(store)@
                        && final(self).groups@ == old(self).groups@
                        && total_free(*final(self), inodes) == total_free(*old(self), inodes),
                    Ok(bytes) => r is Ok
                        && final(store)@ == old(store)@.set_block(bm, spec_clear_bit(bytes, index as int))
                        && final(self).groups@ == old(self).groups@.update(group as int, spec_give_free(old(self).groups@[group as int], inodes))
                        && total_free(*final(self), inodes) == total_free(*old(self), inodes) + 1,
                }
            }),
    {
        let descriptor = self.groups[group];
        let bitmap = if inodes { descriptor.inode_bitmap } else { descriptor.block_bitmap };
        let mut buf = store.read_block(bitmap)?;
        proof { crate::block::lemma_block_bounds(store@, bitmap as int); }
        free_bit(&mut buf, index);
        let _ = store.write_block(bitmap, &buf);

        let mut updated = descriptor;
        if inodes {
            updated.free_inode_count = descriptor.free_inode_count + 1;
            self.total_unalloc_inodes = self.total_unalloc_inodes + 1;
        } else {
            updated.free_block_count = descriptor.free_block_count + 1;
            self.total_unalloc_blocks = self.total_unalloc_blocks + 1;
        }
        self.groups.set(group, updated);
        assert(updated == spec_give_free(descriptor, inodes));
        Ok(())
    }

    /// Frees an inode: clears its bit in its group's bitmap and counts it as free.
    pub fn free_inode(&mut self, store: &mut BlockStore, inode_num: u32) -> (r: Result<(), KernelError>)
        requires
            old(self).wf(),
            old(store)@.wf(),
            old(store)@.block_size == old(self).block_size,
            old(self).inodes_per_group <= 8 * old(self).block_size,
            inode_num >= 1,
            old(self).spec_inode_group_and_offset(inode_num) matches Ok((g, _)) ==> can_free_in(*old(self), g, true),
        ensures
            final(self).wf(),
            same_layout(*final(self), *old(self)),
            final(self).total_unalloc_blocks == old(self).total_unalloc_blocks,
            final(store)@.wf(),
            final(store)@.block_size == old(store)@.block_size,
            match old(self).spec_inode_group_and_offset(inode_num) {
                Err(e) => r == Err::<(), KernelError>(e) && final(store)@ == old(store)@
                    && final(self).groups@ == old(self).groups@ && final(self).total_unalloc_inodes == old(self).total_unalloc_inodes,
                Ok((g, gi)) => match old(store)@.read(old(self).groups@[g].inode_bitmap as int) {
                    Err(e) => r == Err::<(), KernelError>(e) && final(store)@ == old(store)@
                        && final(self).groups@ == old(self).groups@ && final(self).total_unalloc_inodes == old(self).total_unalloc_inodes,
                    Ok(bytes) => r is Ok
                        && final(store)@ == old(store)@.set_block(old(self).groups@[g].inode_bitmap as int, spec_clear_bit(bytes, gi))
                        && final(self).groups@ == old(self).groups@.update(g, spec_give_free(old(self).groups@[g], true))
                        && final(self).total_unalloc_inodes == old(self).total_unalloc_inodes + 1,
                },
            },
    {
        let (group, group_inode) = self.get_inode_group_and_offset(inode_num)?;
        assert(group_inode / 8 < self.block_size) by (nonlinear_arith)
            requires group_inode < self.inodes_per_group, self.inodes_per_group <= 8 * self.block_size;
        self.free_item(store, group, group_inode as usize, true)
    }

    /// Frees a block: clears its bit in its group's bitmap and counts it as free.
    pub fn free_block(&mut self, store: &mut BlockStore, block_num: BlockNum) -> (r: Result<(), KernelError>)
        requires
            old(self).wf(),
            old(store)@.wf(),
            old(store)@.block_size == old(self).block_size,
            old(self).blocks_per_group <= 8 * old(self).block_size,
            old(self).spec_block_group_and_offset(block_num) matches Ok((g, _)) ==> can_free_in(*old(self), g, false),
        ensures
            final(self).wf(),
            same_layout(*final(self), *old(self)),
            final(self).total_unalloc_inodes == old(self).total_unalloc_inodes,
            final(store)@.wf(),
            final(store)@.block_size == old(store)@.block_size,
            match old(self).spec_block_group_and_offset(block_num) {
                Err(e) => r == Err::<(), KernelError>(e) && final(store)@ == old(store)@
                    && final(self).groups@ == old(self).groups@ && final(self).total_unalloc_blocks == old(self).total_unalloc_blocks,
                Ok((g, gb)) => match old(store)@.read(old(self).groups@[g].block_bitmap as int) {
                    Err(e) => r == Err::<(), KernelError>(e) && final(store)@ == old(store)@
                        && final(self).groups@ == old(self).groups@ && final(self).total_unalloc_blocks == old(self).total_unalloc_blocks,
                    Ok(bytes) => r is Ok
                        && final(store)@ == old(store)@.set_block(old(self).groups@[g].block_bitmap as int, spec_clear_bit(bytes, gb))
                        && final(self).groups@ == old(self).groups@.update(g, spec_give_free(old(self).groups@[g], false))
                        && final(self).total_unalloc_blocks == old(self).total_unalloc_blocks + 1,
                },
            },
    {
        let (group, group_block) = self.get_block_group_and_offset(block_num)?;
        assert(group_block / 8 < self.block_size) by (nonlinear_arith)
            requires group_block < self.blocks_per_group, self.blocks_per_group <= 8 * self.block_size;
        self.free_item(store, group, group_block, false)
    }
}

/// What an allocation of a block from the group of inode `start_from_inode` does: the bit of
/// the first free block found is set, the counts drop by one and the block is zeroed; or the
/// error of the search is returned and nothing changes.
pub open spec fn alloc_block_outcome(sb: Ext2SuperBlock, after: Ext2SuperBlock, store: BlockStoreView,
    store_after: BlockStoreView, start_from_inode: u32, r: Result<u32, KernelError>) -> bool
{
    match spec_alloc_item(sb, store, (start_from_inode as int) / (sb.inodes_per_group as int), false) {
        Err(e) => r == Err::<u32, KernelError>(e) && store_after == store
            && after.groups@ == sb.groups@
            && after.total_unalloc_blocks == sb.total_unalloc_blocks,
        Ok((g, n, bitmap)) => {
            let marked = store.set_block(sb.groups@[g].block_bitmap as int, bitmap);
            &&& after.groups@ == sb.groups@.update(g, spec_take_free(sb.groups@[g], false))
            &&& after.total_unalloc_blocks == sb.total_unalloc_blocks - 1
            &&& if marked.has_block(n as u32 as int) {
                r == Ok::<u32, KernelError>(n as u32)
                    && store_after == marked.set_block(n as u32 as int, Seq::new(marked.block_size, |i: int| 0u8))
            } else {
                r == Err::<u32, KernelError>(KernelError::IOError) && store_after == marked
            }
        },
    }
}

/// True when an allocation of a block from the group of inode `start_from_inode` would neither
/// run forever nor run past the end of a bitmap or below zero free blocks.
pub open spec fn alloc_block_ready(sb: Ext2SuperBlock, store: BlockStoreView, start_from_inode: u32) -> bool {
    let start = (start_from_inode as int) / (sb.inodes_per_group as int);
    &&& start < sb.groups@.len()
    &&& (start != 0 || !no_free_group(sb.groups@, false))
    &&& bitmap_scannable(store, sb.groups@, start, sb.blocks_per_group, false)
    &&& (!no_free_group(sb.groups@, false) ==> sb.total_unalloc_blocks >= 1)
}

/// What `try_alloc_block` does: the allocation of `alloc_block_outcome` where it can run, else
/// `OutOfDiskSpace` with nothing changed.
pub open spec fn try_alloc_block_outcome(sb: Ext2SuperBlock, after: Ext2SuperBlock, store: BlockStoreView,
    store_after: BlockStoreView, start_from_inode: u32, r: Result<u32, KernelError>) -> bool
{
    if alloc_block_ready(sb, store, start_from_inode) {
        alloc_block_outcome(sb, after, store, store_after, start_from_inode, r)
    } else {
        r == Err::<u32, KernelError>(KernelError::OutOfDiskSpace)
        && store_after == store && after.groups@ == sb.groups@
        && after.total_unalloc_blocks == sb.total_unalloc_blocks
    }
}

/// The part of a mounted filesystem that allocating blocks changes: the group descriptors, the
/// count of free blocks, and the device.
pub struct AllocState {
    pub groups: Seq<Ext2BlockGroup>,
    pub free_blocks: u32,
    pub store: BlockStoreView,
}

/// The allocation state of a superblock and its device.
pub open spec fn alloc_state(sb: Ext2SuperBlock, store: BlockStoreView) -> AllocState {
    AllocState { groups: sb.groups@, free_blocks: sb.total_unalloc_blocks, store: store }
}

/// `spec_alloc_item` for the group descriptors `groups`, the rest of the layout being `sb`'s.
pub open spec fn spec_alloc_item_in(sb: Ext2SuperBlock, groups: Seq<Ext2BlockGroup>, store: BlockStoreView,
    start: int, inodes: bool) -> Result<(int, int, Seq<u8>), KernelError>
{
    let per_group = if inodes { sb.inodes_per_group } else { sb.blocks_per_group };
    match spec_first_free_group(groups, start, inodes) {
        None => Err(KernelError::OutOfDiskSpace),
        Some(g) => match store.read(group_bitmap(groups[g], inodes) as int) {
            Err(e) => Err(e),
            Ok(bytes) => match spec_first_free_byte(bytes, per_group as int) {
                None => Err(KernelError::OutOfDiskSpace),
                Some(i) => {
                    let b = spec_first_clear_bit(bytes[i]);
                    Ok((g, g * per_group + i * 8 + b, bytes.update(i, bytes[i] | (1u8 << (b as u8)))))
                },
            },
        },
    }
}

/// `alloc_block_ready` for the allocation state `st`, the layout being `sb`'s.
pub open spec fn alloc_block_ready_in(sb: Ext2SuperBlock, st: AllocState, start_from_inode: u32) -> bool {
    let start = (start_from_inode as int) / (sb.inodes_per_group as int);
    &&& start < st.groups.len()
    &&& (start != 0 || !no_free_group(st.groups, false))
    &&& bitmap_scannable(st.store, st.groups, start, sb.blocks_per_group, false)
    &&& (!no_free_group(st.groups, false) ==> st.free_blocks >= 1)
}

/// One allocation of a block for the file of inode `start_from_inode`, as `try_alloc_block`
/// makes it: the block, or the error, and the allocation state afterwards.
pub open spec fn alloc_block_step(sb: Ext2SuperBlock, st: AllocState, start_from_inode: u32)
    -> (Result<u32, KernelError>, AllocState)
{
    if !alloc_block_ready_in(sb, st, start_from_inode) {
        (Err(KernelError::OutOfDiskSpace), st)
    } else {
        match spec_alloc_item_in(sb, st.groups, st.store, (start_from_inode as int) / (sb.inodes_per_group as int), false) {
            Err(e) => (Err(e), st),
            Ok((g, n, bitmap)) => {
                let marked = st.store.set_block(st.groups[g].block_bitmap as int, bitmap);
                let groups = st.groups.update(g, spec_take_free(st.groups[g], false));
                let free = (st.free_blocks - 1) as u32;
                if marked.has_block(n as u32 as int) {
                    (Ok(n as u32), AllocState { groups: groups, free_blocks: free,
                        store: marked.set_block(n as u32 as int, Seq::new(marked.block_size, |i: int| 0u8)) })
                } else {
                    (Err(KernelError::IOError), AllocState { groups: groups, free_blocks: free, store: marked })
                }
            },
        }
    }
}

/// What `try_alloc_block` does is the allocation step on the superblock's state.
pub proof fn lemma_try_alloc_step(sb: Ext2SuperBlock, after: Ext2SuperBlock, store: BlockStoreView,
    store_after: BlockStoreView, start_from_inode: u32, r: Result<u32, KernelError>)
    requires
        sb.wf(),
        try_alloc_block_outcome(sb, after, store, store_after, start_from_inode, r),
    ensures
        (r, alloc_state(after, store_after)) == alloc_block_step(sb, alloc_state(sb, store), start_from_inode),
{
    let st = alloc_state(sb, store);
    assert(alloc_block_ready(sb, store, start_from_inode) == alloc_block_ready_in(sb, st, start_from_inode));
    let start = (start_from_inode as int) / (sb.inodes_per_group as int);
    assert(spec_alloc_item(sb, store, start, false) == spec_alloc_item_in(sb, st.groups, st.store, start, false));
    if alloc_block_ready(sb, store, start_from_inode) {
        if let Ok((g, n, bitmap)) = spec_alloc_item(sb, store, start, false) {
            assert(after.total_unalloc_blocks == (sb.total_unalloc_blocks - 1) as u32);
        }
    }
}

/// Two superblocks of the same layout make the same allocations.
pub proof fn lemma_alloc_step_layout(a: Ext2SuperBlock, b: Ext2SuperBlock, st: AllocState, start_from_inode: u32)
    requires
        same_layout(a, b),
    ensures
        alloc_block_step(a, st, start_from_inode) == alloc_block_step(b, st, start_from_inode),
{
    assert(spec_alloc_item_in(a, st.groups, st.store, (start_from_inode as int) / (a.inodes_per_group as int), false)
        == spec_alloc_item_in(b, st.groups, st.store, (start_from_inode as int) / (b.inodes_per_group as int), false));
}

/// True when `try_alloc_block` succeeds: the allocation can run, finds a free block, and the
/// device holds that block.
pub open spec fn alloc_block_succeeds(sb: Ext2SuperBlock, store: BlockStoreView, start_from_inode: u32) -> bool {
    &&& alloc_block_ready(sb, store, start_from_inode)
    &&& match spec_alloc_item(sb, store, (start_from_inode as int) / (sb.inodes_per_group as int), false) {
        Err(_) => false,
        Ok((g, n, bitmap)) => store.set_block(sb.groups@[g].block_bitmap as int, bitmap).has_block(n as u32 as int),
    }
}

impl Ext2SuperBlock {
    /// True when some group has a free inode (or block).
    pub fn has_free_group(&self, inodes: bool) -> (r: bool)
        ensures
            r == !no_free_group(self.groups@, inodes),
    {
        let mut i: usize = 0;
        while i < self.groups.len()
            invariant
                0 <= i <= self.groups@.len(),
                forall|j: int| 0 <= j < i ==> group_free(#[trigger] self.groups@[j], inodes) < 1,
            decreases self.groups@.len() - i,
        {
            let free = if inodes { self.groups[i].free_inode_count } else { self.groups[i].free_block_count };
            if free >= 1 {
                return true;
            }
            i += 1;
        }
        false
    }

    /// Allocates a block as `alloc_block` does when that allocation would neither run forever
    /// nor run past a bitmap or below zero free blocks; otherwise reports `OutOfDiskSpace`
    /// and changes nothing.
    pub fn try_alloc_block(&mut self, store: &mut BlockStore, start_from_inode: u32) -> (r: Result<u32, KernelError>)
        requires
            old(self).wf(),
            old(store)@.wf(),
            old(store)@.block_size == old(self).block_size,
        ensures
            final(self).wf(),
            same_layout(*final(self), *old(self)),
            final(self).total_unalloc_inodes == old(self).total_unalloc_inodes,
            final(store)@.wf(),
            final(store)@.block_size == old(store)@.block_size,
            final(store)@.data.len() == old(store)@.data.len(),
            try_alloc_block_outcome(*old(self), *final(self), old(store)@, final(store)@, start_from_inode, r),
    {
        let start = start_from_inode as usize / self.inodes_per_group;
        if start >= self.groups.len() {
            return Err(KernelError::OutOfDiskSpace);
        }
        let any_free = self.has_free_group(false);
        if start == 0 && !any_free {
            return Err(KernelError::OutOfDiskSpace);
        }
        if any_free && self.total_unalloc_blocks == 0 {
            return Err(KernelError::OutOfDiskSpace);
        }
        if let Some(group) = self.find_free_group(start, false) {
            let bitmap = self.groups[group].block_bitmap;
            if store.has_block(bitmap) && self.blocks_per_group > store.get_buf_size() {
                let bytes = store.read_block(bitmap)?;
                proof { crate::block::lemma_block_bounds(store@, bitmap as int); }
                let mut i: usize = 0;
                let mut clear = false;
                while i < bytes.len()
                    invariant
                        0 <= i <= bytes@.len(),
                        !clear ==> forall|j: int| 0 <= j < i ==> bytes@[j] == 0xff,
                        clear ==> !bitmap_full(bytes@, bytes@.len() as int),
                    decreases bytes@.len() - i,
                {
                    if bytes[i] != 0xff {
                        clear = true;
                    }
                    i += 1;
                }
                if !clear {
                    return Err(KernelError::OutOfDiskSpace);
                }
            }
        }
        assert(start as int == (start_from_inode as int) / (self.inodes_per_group as int));
        self.alloc_block(store, start_from_inode)
    }
}

/// What an allocation of an inode from the group of inode `start_from` does: the bit of the
/// first free inode found is set and the counts drop by one, the inode's number (counted from
/// one) being returned; or the error of the search is returned and nothing changes.
pub open spec fn alloc_inode_outcome(sb: Ext2SuperBlock, after: Ext2SuperBlock, store: BlockStoreView,
    store_after: BlockStoreView, start_from: u32, r: Result<u32, KernelError>) -> bool
{
    match spec_alloc_item(sb, store, (start_from as int) / (sb.inodes_per_group as int), true) {
        Err(e) => r == Err::<u32, KernelError>(e) && store_after == store
            && after.groups@ == sb.groups@
            && after.total_unalloc_inodes == sb.total_unalloc_inodes,
        Ok((g, n, bitmap)) => r == Ok::<u32, KernelError>((n + 1) as u32)
            && store_after == store.set_block(sb.groups@[g].inode_bitmap as int, bitmap)
            && after.groups@ == sb.groups@.update(g, spec_take_free(sb.groups@[g], true))
            && after.total_unalloc_inodes == sb.total_unalloc_inodes - 1,
    }
}

/// True when an allocation of an inode from the group of inode `start_from` would neither
/// run forever nor run past the end of a bitmap or below zero free inodes.
pub open spec fn alloc_inode_ready(sb: Ext2SuperBlock, store: BlockStoreView, start_from: u32) -> bool {
    let start = (start_from as int) / (sb.inodes_per_group as int);
    &&& start < sb.groups@.len()
    &&& (start != 0 || !no_free_group(sb.groups@, true))
    &&& bitmap_scannable(store, sb.groups@, start, sb.inodes_per_group, true)
    &&& (!no_free_group(sb.groups@, true) ==> sb.total_unalloc_inodes >= 1)
}

impl Ext2SuperBlock {
    /// Allocates an inode as `alloc_inode` does when that allocation would neither run forever
    /// nor run past a bitmap or below zero free inodes; otherwise reports `OutOfDiskSpace` and
    /// changes nothing.
    pub fn try_alloc_inode(&mut self, store: &mut BlockStore, start_from: u32) -> (r: Result<u32, KernelError>)
        requires
            old(self).wf(),
            old(store)@.wf(),
            old(store)@.block_size == old(self).block_size,
        ensures
            final(self).wf(),
            same_layout(*final(self), *old(self)),
            final(self).total_unalloc_blocks == old(self).total_unalloc_blocks,
            final(store)@.wf(),
            final(store)@.block_size == old(store)@.block_size,
            final(store)@.data.len() == old(store)@.data.len(),
            if alloc_inode_ready(*old(self), old(store)@, start_from) {
                alloc_inode_outcome(*old(self), *final(self), old(store)@, final(store)@, start_from, r)
            } else {
                r == Err::<u32, KernelError>(KernelError::OutOfDiskSpace)
                && final(store)@ == old(store)@ && final(self).groups@ == old(self).groups@
                && final(self).total_unalloc_inodes == old(self).total_unalloc_inodes
            },
    {
        let start = start_from as usize / self.inodes_per_group;
        if start >= self.groups.len() {
            return Err(KernelError::OutOfDiskSpace);
        }
        let any_free = self.has_free_group(true);
        if start == 0 && !any_free {
            return Err(KernelError::OutOfDiskSpace);
        }
        if any_free && self.total_unalloc_inodes == 0 {
            return Err(KernelError::OutOfDiskSpace);
        }
        if let Some(group) = self.find_free_group(start, true) {
            let bitmap = self.groups[group].inode_bitmap;
            if store.has_block(bitmap) && self.inodes_per_group > store.get_buf_size() {
                let bytes = store.read_block(bitmap)?;
                proof { crate::block::lemma_block_bounds(store@, bitmap as int); }
                let mut i: usize = 0;
                let mut clear = false;
                while i < bytes.len()
                    invariant
                        0 <= i <= bytes@.len(),
                        !clear ==> forall|j: int| 0 <= j < i ==> bytes@[j] == 0xff,
                        clear ==> !bitmap_full(bytes@, bytes@.len() as int),
                    decreases bytes@.len() - i,
                {
                    if bytes[i] != 0xff {
                        clear = true;
                    }
                    i += 1;
                }
                if !clear {
                    return Err(KernelError::OutOfDiskSpace);
                }
            }
        }
        assert(start as int == (start_from as int) / (self.inodes_per_group as int));
        self.alloc_inode(store, start_from)
    }
}

} // verus!
