use vstd::prelude::*;

use crate::errors::KernelError;
use crate::block::{BlockStoreView, lemma_block_bounds, lemma_read_after_write};
use super::directories::{spec_entry_inode, spec_entry_len, spec_entry_name_len, spec_entry_name, spec_entry_fits,
    spec_header_fits, spec_min_entry_len, spec_scan_for_space, spec_find_space, spec_lookup, spec_next_dirent,
    spec_new_entry_offset, entry_written, entry_added, entry_in_bytes, lemma_scan_found, DIRENT_HEADER_SIZE};
use crate::misc::spec_read_le32;
use super::blocks::{spec_file_block, spec_block_in_tier, spec_number_of_tiers, spec_pow, spec_file_block_alloc,
    file_alloc_apart, lemma_file_alloc_readback, lemma_file_block_alloc_store, tables_indexable};
use super::superblock::{Ext2SuperBlock, alloc_state};
use super::inodes::EXT2_INODE_DIRECT_BLOCKS;

verus! {

/// The walk of a directory's entries from position `p` lands on `target`: each entry met
/// before it is read without error, is at least as long as its header and name, and leads to
/// a position inside the directory.
pub open spec fn walk_reaches(store: BlockStoreView, blocks: Seq<u32>, bs: int, size: int, p: int, target: int) -> bool
    decreases target - p,
{
    if p >= target {
        p == target
    } else {
        match spec_next_dirent(store, blocks, bs, size, p) {
            Ok(Some((_, name, len))) => {
                let l = len as int;
                if l >= DIRENT_HEADER_SIZE + name.len() && p + l < size && p + l <= target {
                    walk_reaches(store, blocks, bs, size, p + l, target)
                } else {
                    false
                }
            },
            _ => false,
        }
    }
}

/// The walk of a directory's entries reaches the start of its `k`-th block.
pub open spec fn reaches_block(store: BlockStoreView, blocks: Seq<u32>, bs: int, size: int, k: int) -> bool {
    walk_reaches(store, blocks, bs, size + 1, 0, k * bs)
}

/// A well-formed directory of `size` bytes: the walk of its entries, each at least as long as
/// its header and name, reaches the start of each of its blocks and its end, so that no entry
/// runs across a block.
pub open spec fn dir_well_formed(store: BlockStoreView, blocks: Seq<u32>, bs: int, size: int) -> bool {
    forall|k: int| 0 <= k && k * bs <= size ==> #[trigger] reaches_block(store, blocks, bs, size, k)
}

/// A walk that reaches its target within a smaller or larger directory reaches it in both.
proof fn lemma_walk_resize(store: BlockStoreView, blocks: Seq<u32>, bs: int, w1: int, w2: int, p: int, target: int)
    requires
        bs > 0,
        0 <= p,
        target < w2,
        target < w1,
        walk_reaches(store, blocks, bs, w1, p, target),
    ensures
        walk_reaches(store, blocks, bs, w2, p, target),
    decreases target - p,
{
    if p < target {
        vstd::arithmetic::div_mod::lemma_fundamental_div_mod(p, bs);
        vstd::arithmetic::div_mod::lemma_mod_bound(p, bs);
        vstd::arithmetic::div_mod::lemma_div_pos_is_pos(p, bs);
        assert((p / bs) * bs <= p) by (nonlinear_arith) requires p == bs * (p / bs) + p % bs, p % bs >= 0;
        assert(spec_next_dirent(store, blocks, bs, w1, p) == spec_next_dirent(store, blocks, bs, w2, p));
        let len = spec_next_dirent(store, blocks, bs, w1, p).get_Ok_0().get_Some_0().2 as int;
        lemma_walk_resize(store, blocks, bs, w1, w2, p + len, target);
    }
}

/// Two walks from one place reach the nearer target on the way to the farther one.
proof fn lemma_walk_prefix(store: BlockStoreView, blocks: Seq<u32>, bs: int, size: int, p: int, t1: int, t2: int)
    requires
        t1 <= t2,
        walk_reaches(store, blocks, bs, size, p, t1),
        walk_reaches(store, blocks, bs, size, p, t2),
    ensures
        walk_reaches(store, blocks, bs, size, t1, t2),
    decreases t1 - p,
{
    if p < t1 {
        let len = spec_next_dirent(store, blocks, bs, size, p).get_Ok_0().get_Some_0().2 as int;
        lemma_walk_prefix(store, blocks, bs, size, p + len, t1, t2);
    }
}

/// Within a block of a directory, the walk from an entry that the block's scan for room passes
/// reaches the entry the scan finds.
proof fn lemma_walk_follows_scan(store: BlockStoreView, blocks: Seq<u32>, w: int, zf: int, b: u32, q: int,
    ml: int, off: int)
    requires
        store.wf(),
        0 <= zf,
        (zf + 1) * (store.block_size as int) < w,
        spec_file_block(store, blocks, store.block_size as int, zf) == Ok::<Option<u32>, KernelError>(Some(b)),
        store.has_block(b as int),
        spec_scan_for_space(store.block(b as int), q, ml) == Ok::<Option<int>, KernelError>(Some(off)),
        0 <= q,
        walk_reaches(store, blocks, store.block_size as int, w, zf * (store.block_size as int) + q,
            (zf + 1) * (store.block_size as int)),
    ensures
        walk_reaches(store, blocks, store.block_size as int, w, zf * (store.block_size as int) + q,
            zf * (store.block_size as int) + off),
    decreases store.block_size - q,
{
    let bs = store.block_size as int;
    let bytes = store.block(b as int);
    lemma_block_bounds(store, b as int);
    lemma_scan_reaches(bytes, q, ml, off);
    if q < off {
        assert(spec_header_fits(bytes, q));
        let len = spec_entry_len(bytes, q) as int;
        assert(!(len > spec_min_entry_len(spec_entry_name_len(bytes, q) as int) + ml));
        assert(len != 0 && q + len < bytes.len());
        lemma_scan_reaches(bytes, q + len, ml, off);
        assert((zf + 1) * bs == zf * bs + bs) by (nonlinear_arith);
        vstd::arithmetic::div_mod::lemma_fundamental_div_mod_converse(zf * bs + q, bs, zf, q);
        assert(zf * bs <= (zf + 1) * bs) by (nonlinear_arith) requires bs > 0;
        assert(spec_next_dirent(store, blocks, bs, w, zf * bs + q).get_Ok_0().get_Some_0().2 as int == len);
        lemma_walk_follows_scan(store, blocks, w, zf, b, q + len, ml, off);
    }
}

/// In a well-formed directory, the walk of its entries reaches the entry where the search for
/// room stopped, in a block that lies inside the directory.
proof fn lemma_well_formed_reaches_found(store: BlockStoreView, blocks: Seq<u32>, size: int, ml: int, b: u32,
    off: int, zf: int)
    requires
        store.wf(),
        dir_well_formed(store, blocks, store.block_size as int, size),
        spec_find_space(store, blocks, store.block_size as int, size, 0, ml)
            == Ok::<(Option<(u32, int)>, int), KernelError>((Some((b, off)), zf)),
        (zf + 1) * (store.block_size as int) <= size,
    ensures
        walk_reaches(store, blocks, store.block_size as int, size, 0, zf * (store.block_size as int) + off),
{
    let bs = store.block_size as int;
    lemma_find_space_at(store, blocks, bs, size, 0, ml, b, off, zf);
    let bytes = store.block(b as int);
    lemma_block_bounds(store, b as int);
    lemma_scan_found(bytes, 0, ml);
    lemma_scan_reaches(bytes, 0, ml, off);
    assert(zf * bs <= (zf + 1) * bs) by (nonlinear_arith) requires bs > 0;
    assert(reaches_block(store, blocks, bs, size, zf));
    assert(reaches_block(store, blocks, bs, size, zf + 1));
    lemma_walk_prefix(store, blocks, bs, size + 1, 0, zf * bs, (zf + 1) * bs);
    lemma_walk_follows_scan(store, blocks, size + 1, zf, b, 0, ml, off);
    assert(walk_reaches(store, blocks, bs, size + 1, 0, zf * bs + off)) by {
        lemma_walk_join(store, blocks, bs, size + 1, 0, zf * bs, zf * bs + off);
    }
    assert(off < bs);
    assert((zf + 1) * bs == zf * bs + bs) by (nonlinear_arith);
    lemma_walk_resize(store, blocks, bs, size + 1, size, 0, zf * bs + off);
}

/// A walk to a place and a walk on from it make a walk to the farther place.
proof fn lemma_walk_join(store: BlockStoreView, blocks: Seq<u32>, bs: int, size: int, p: int, t1: int, t2: int)
    requires
        walk_reaches(store, blocks, bs, size, p, t1),
        walk_reaches(store, blocks, bs, size, t1, t2),
        t1 <= t2,
    ensures
        walk_reaches(store, blocks, bs, size, p, t2),
    decreases t1 - p,
{
    if p < t1 {
        let len = spec_next_dirent(store, blocks, bs, size, p).get_Ok_0().get_Some_0().2 as int;
        lemma_walk_join(store, blocks, bs, size, p + len, t1, t2);
    }
}

/// The search of a directory for room stops in a block of the directory whose scan finds the
/// entry it gives.
pub(crate) proof fn lemma_find_space_at(store: BlockStoreView, blocks: Seq<u32>, bs: int, size: int, znum: int, ml: int,
    b: u32, off: int, zf: int)
    requires
        spec_find_space(store, blocks, bs, size, znum, ml) == Ok::<(Option<(u32, int)>, int), KernelError>((Some((b, off)), zf)),
    ensures
        0 <= znum <= zf <= size / bs,
        spec_file_block(store, blocks, bs, zf) == Ok::<Option<u32>, KernelError>(Some(b)),
        store.read(b as int) matches Ok(bytes)
            && spec_scan_for_space(bytes, 0, ml) == Ok::<Option<int>, KernelError>(Some(off)),
    decreases size / bs + 1 - znum,
{
    if !(znum < 0 || znum > size / bs) {
        match spec_file_block(store, blocks, bs, znum) {
            Ok(Some(b1)) => match store.read(b1 as int) {
                Ok(bytes) => match spec_scan_for_space(bytes, 0, ml) {
                    Ok(None) => { lemma_find_space_at(store, blocks, bs, size, znum + 1, ml, b, off, zf); },
                    _ => {},
                },
                _ => {},
            },
            _ => {},
        }
    }
}

/// The walk of a block's scan for room reaches the entry it finds from below.
proof fn lemma_scan_reaches(bytes: Seq<u8>, q: int, ml: int, off: int)
    requires
        spec_scan_for_space(bytes, q, ml) == Ok::<Option<int>, KernelError>(Some(off)),
    ensures
        0 <= q <= off,
    decreases bytes.len() - q,
{
    if q >= 0 && q < bytes.len() && spec_header_fits(bytes, q) {
        let len = spec_entry_len(bytes, q) as int;
        if !(len > spec_min_entry_len(spec_entry_name_len(bytes, q) as int) + ml) && len != 0 && q + len < bytes.len() {
            lemma_scan_reaches(bytes, q + len, ml, off);
        }
    }
}

/// Two blocks that agree on the bytes of the entry at `p` show the same entry there.
proof fn lemma_same_entry(bytes: Seq<u8>, t: Seq<u8>, p: int)
    requires
        t.len() == bytes.len(),
        spec_header_fits(bytes, p),
        forall|k: int| p <= k < p + DIRENT_HEADER_SIZE ==> t[k] == bytes[k],
        spec_entry_fits(bytes, p) ==> forall|k: int| p <= k < p + DIRENT_HEADER_SIZE + spec_entry_name_len(bytes, p)
            ==> t[k] == bytes[k],
    ensures
        spec_entry_inode(t, p) == spec_entry_inode(bytes, p),
        spec_entry_len(t, p) == spec_entry_len(bytes, p),
        spec_entry_name_len(t, p) == spec_entry_name_len(bytes, p),
        spec_entry_fits(t, p) == spec_entry_fits(bytes, p),
        spec_entry_fits(bytes, p) ==> spec_entry_name(t, p) == spec_entry_name(bytes, p),
{
    assert(t[p] == bytes[p] && t[p + 1] == bytes[p + 1] && t[p + 2] == bytes[p + 2] && t[p + 3] == bytes[p + 3]);
    assert(t[p + 4] == bytes[p + 4] && t[p + 5] == bytes[p + 5] && t[p + 6] == bytes[p + 6]);
    if spec_entry_fits(bytes, p) {
        assert(spec_entry_name(t, p) =~= spec_entry_name(bytes, p));
    }
}

/// The layout in which an entry was added to a directory: the search for room stopped in
/// block `zf` at the entry at `off`, the directory holds that whole block, no other of its
/// blocks is the same block of the device, and `store1` is `store0` with that block replaced
/// by one whose bytes differ from the old ones only inside that entry, in a way that leaves
/// where each block of the directory lies unchanged.
pub open spec fn added_layout(store0: BlockStoreView, store1: BlockStoreView, blocks: Seq<u32>, size: int,
    zf: int, b: u32, off: int, len_off: int) -> bool
{
    let bs = store0.block_size as int;
    &&& store0.wf()
    &&& blocks.len() == 15
    &&& 0 <= zf <= size / bs
    &&& (zf + 1) * bs <= size
    &&& 0 <= off < bs
    &&& len_off > 0
    &&& spec_file_block(store0, blocks, bs, zf) == Ok::<Option<u32>, KernelError>(Some(b))
    &&& store0.has_block(b as int)
    &&& forall|z: int| 0 <= z <= size / bs && z != zf
        ==> #[trigger] spec_file_block(store0, blocks, bs, z) != Ok::<Option<u32>, KernelError>(Some(b))
    &&& forall|z: int| 0 <= z <= size / bs
        ==> #[trigger] spec_file_block(store1, blocks, bs, z) == spec_file_block(store0, blocks, bs, z)
    &&& store1 == store0.set_block(b as int, store1.block(b as int))
    &&& store1.block(b as int).len() == bs
    &&& forall|k: int| 0 <= k < bs && !(off <= k < off + len_off)
        ==> #[trigger] store1.block(b as int)[k] == store0.block(b as int)[k]
}

/// The walk of block tables from `table` for entry `offset` reads block `x`.
pub open spec fn tier_reads(store: BlockStoreView, epb: int, tiers: int, table: u32, offset: int, x: u32) -> bool
    decreases tiers,
{
    let span = spec_pow(epb, tiers - 1);
    if table == x {
        true
    } else if tiers <= 1 {
        false
    } else {
        match store.read(table as int) {
            Ok(bytes) => {
                let next = spec_read_le32(bytes, (offset / span) * 4);
                next != 0 && tier_reads(store, epb, tiers - 1, next, offset % span, x)
            },
            Err(_) => false,
        }
    }
}

/// Finding block `linear` of a file reads block `x` as one of its block tables.
pub open spec fn file_block_reads(store: BlockStoreView, blocks: Seq<u32>, bs: int, linear: int, x: u32) -> bool {
    match spec_number_of_tiers(bs / 4, linear) {
        Ok(tiers) => {
            let index = if linear < EXT2_INODE_DIRECT_BLOCKS { linear } else { EXT2_INODE_DIRECT_BLOCKS + tiers - 1 };
            tiers > 0 && blocks[index] != 0 && tier_reads(store, bs / 4, tiers, blocks[index], linear - EXT2_INODE_DIRECT_BLOCKS, x)
        },
        Err(_) => false,
    }
}

/// Replacing a block that the walk of the block tables does not read leaves the walk as it was.
proof fn lemma_tier_frame(store: BlockStoreView, x: u32, t: Seq<u8>, epb: int, tiers: int, table: u32, offset: int)
    requires
        store.wf(),
        store.has_block(x as int),
        t.len() == store.block_size,
        !tier_reads(store, epb, tiers, table, offset, x),
    ensures
        spec_block_in_tier(store.set_block(x as int, t), epb, tiers, table, offset)
            == spec_block_in_tier(store, epb, tiers, table, offset),
    decreases tiers,
{
    lemma_read_after_write(store, x as int, table as int, t);
    let span = spec_pow(epb, tiers - 1);
    if tiers > 1 {
        if let Ok(bytes) = store.read(table as int) {
            let next = spec_read_le32(bytes, (offset / span) * 4);
            if next != 0 {
                lemma_tier_frame(store, x, t, epb, tiers - 1, next, offset % span);
            }
        }
    }
}

/// Replacing a block that is none of a file's block tables leaves where each block of the file
/// lies as it was.
pub proof fn lemma_file_block_frame(store: BlockStoreView, x: u32, t: Seq<u8>, blocks: Seq<u32>, bs: int, linear: int)
    requires
        store.wf(),
        bs == store.block_size,
        store.has_block(x as int),
        t.len() == store.block_size,
        blocks.len() == 15,
        !file_block_reads(store, blocks, bs, linear, x),
    ensures
        spec_file_block(store.set_block(x as int, t), blocks, bs, linear) == spec_file_block(store, blocks, bs, linear),
{
    if let Ok(tiers) = spec_number_of_tiers(bs / 4, linear) {
        let index = if linear < EXT2_INODE_DIRECT_BLOCKS { linear } else { EXT2_INODE_DIRECT_BLOCKS + tiers - 1 };
        if tiers > 0 && blocks[index] != 0 {
            lemma_tier_frame(store, x, t, bs / 4, tiers, blocks[index], linear - EXT2_INODE_DIRECT_BLOCKS);
        }
    }
}

/// An entry of the directory that lies outside the changed bytes reads the same in both stores.
proof fn lemma_dirent_unchanged(store0: BlockStoreView, store1: BlockStoreView, blocks: Seq<u32>, size: int,
    zf: int, b: u32, off: int, len_off: int, x: int)
    requires
        added_layout(store0, store1, blocks, size, zf, b, off, len_off),
        0 <= x < size,
        x / (store0.block_size as int) != zf
            || x % (store0.block_size as int) >= off + len_off
            || (spec_next_dirent(store0, blocks, store0.block_size as int, size, x) matches Ok(Some((_, nm, _)))
                && x % (store0.block_size as int) + DIRENT_HEADER_SIZE + nm.len() <= off),
    ensures
        spec_next_dirent(store1, blocks, store0.block_size as int, size, x)
            == spec_next_dirent(store0, blocks, store0.block_size as int, size, x),
{
    let bs = store0.block_size as int;
    let z = x / bs;
    let q = x % bs;
    let t = store1.block(b as int);
    let bytes = store0.block(b as int);
    lemma_block_bounds(store0, b as int);
    lemma_read_after_write(store0, b as int, b as int, t);
    vstd::arithmetic::div_mod::lemma_div_is_ordered(x, size, bs);
    vstd::arithmetic::div_mod::lemma_div_pos_is_pos(x, bs);
    vstd::arithmetic::div_mod::lemma_mod_bound(x, bs);
    assert(store1.block_size == store0.block_size);
    if z * bs <= size {
        assert(spec_file_block(store1, blocks, bs, z) == spec_file_block(store0, blocks, bs, z));
        if let Ok(Some(c)) = spec_file_block(store0, blocks, bs, z) {
            lemma_read_after_write(store0, b as int, c as int, t);
            if c == b {
                assert(z == zf);
                if spec_header_fits(bytes, q) {
                    lemma_same_entry(bytes, t, q);
                } else {
                    assert(!spec_header_fits(t, q));
                }
            }
        }
    }
}

/// Past the changed bytes, a lookup finds in the new store what it found in the old one.
proof fn lemma_lookup_past_change(store0: BlockStoreView, store1: BlockStoreView, blocks: Seq<u32>, size: int,
    zf: int, b: u32, off: int, len_off: int, x: int, name: Seq<u8>)
    requires
        added_layout(store0, store1, blocks, size, zf, b, off, len_off),
        zf * (store0.block_size as int) + off + len_off <= x,
    ensures
        spec_lookup(store1, blocks, store0.block_size as int, size, x, name)
            == spec_lookup(store0, blocks, store0.block_size as int, size, x, name),
    decreases size - x,
{
    let bs = store0.block_size as int;
    if x < size {
        let z = x / bs;
        vstd::arithmetic::div_mod::lemma_fundamental_div_mod(x, bs);
        vstd::arithmetic::div_mod::lemma_mod_bound(x, bs);
        if z == zf {
            assert(x % bs == x - zf * bs);
        } else {
            assert(z > zf || z < zf);
            if z < zf {
                assert((zf - z) * bs >= bs) by (nonlinear_arith) requires zf - z >= 1, bs > 0;
                assert(zf * bs - z * bs == (zf - z) * bs) by (nonlinear_arith);
            }
        }
        lemma_dirent_unchanged(store0, store1, blocks, size, zf, b, off, len_off, x);
        match spec_next_dirent(store0, blocks, bs, size, x) {
            Ok(Some((_, _, len))) => {
                if len > 0 && x + len < size {
                    lemma_lookup_past_change(store0, store1, blocks, size, zf, b, off, len_off, x + len, name);
                }
            },
            _ => {},
        }
    }
}

/// The bytes that adding an entry changed all lie inside the entry where it went.
proof fn lemma_change_inside_entry(bytes: Seq<u8>, t: Seq<u8>, off: int, inode: u32, name: Seq<u8>, file_type: u8)
    requires
        spec_scan_for_space(bytes, 0, spec_min_entry_len(name.len() as int)) == Ok::<Option<int>, KernelError>(Some(off)),
        entry_written(bytes, t, off, inode, name, file_type),
    ensures
        0 <= off,
        spec_header_fits(bytes, off),
        spec_entry_len(bytes, off) as int > spec_min_entry_len(spec_entry_name_len(bytes, off) as int)
            + spec_min_entry_len(name.len() as int),
        spec_new_entry_offset(bytes, off) + DIRENT_HEADER_SIZE + name.len() < off + spec_entry_len(bytes, off),
        forall|k: int| 0 <= k < bytes.len() && !(off <= k < off + spec_entry_len(bytes, off)) ==> #[trigger] t[k] == bytes[k],
{
    let ml = spec_min_entry_len(name.len() as int);
    lemma_scan_found(bytes, 0, ml);
    lemma_scan_reaches(bytes, 0, ml, off);
    assert(ml >= name.len() + DIRENT_HEADER_SIZE);
    assert(spec_min_entry_len(spec_entry_name_len(bytes, off) as int) >= DIRENT_HEADER_SIZE);
}

/// The entry at byte `q` of direct block `zf` of a directory, a block that lies inside the
/// directory, is the entry at `q` of that block.
proof fn lemma_dirent_in_block(store: BlockStoreView, blocks: Seq<u32>, size: int, zf: int, b: u32, q: int)
    requires
        store.wf(),
        0 <= q < store.block_size,
        0 <= zf,
        (zf + 1) * (store.block_size as int) <= size,
        spec_file_block(store, blocks, store.block_size as int, zf) == Ok::<Option<u32>, KernelError>(Some(b)),
        store.has_block(b as int),
    ensures
        spec_next_dirent(store, blocks, store.block_size as int, size, zf * (store.block_size as int) + q) == {
            let bytes = store.block(b as int);
            if spec_entry_fits(bytes, q) {
                Ok::<Option<(u32, Seq<u8>, u16)>, KernelError>(Some((spec_entry_inode(bytes, q), spec_entry_name(bytes, q),
                    spec_entry_len(bytes, q))))
            } else {
                Err::<Option<(u32, Seq<u8>, u16)>, KernelError>(KernelError::InvalidInode)
            }
        },
{
    let bs = store.block_size as int;
    vstd::arithmetic::div_mod::lemma_fundamental_div_mod_converse(zf * bs + q, bs, zf, q);
    assert((zf + 1) * bs == zf * bs + bs) by (nonlinear_arith);
}

/// What the entries at the place of a new entry read, before and after it was written.
#[verifier::spinoff_prover]
proof fn lemma_added_entry_reads(store0: BlockStoreView, store1: BlockStoreView, blocks: Seq<u32>, size: int,
    zf: int, b: u32, off: int, inode: u32, name: Seq<u8>, file_type: u8)
    requires
        added_layout(store0, store1, blocks, size, zf, b, off, spec_entry_len(store0.block(b as int), off) as int),
        name.len() < 256,
        spec_scan_for_space(store0.block(b as int), 0, spec_min_entry_len(name.len() as int))
            == Ok::<Option<int>, KernelError>(Some(off)),
        entry_written(store0.block(b as int), store1.block(b as int), off, inode, name, file_type),
    ensures
        ({
            let bs = store0.block_size as int;
            let bytes = store0.block(b as int);
            let t = store1.block(b as int);
            let o = spec_new_entry_offset(bytes, off);
            let len_off = spec_entry_len(bytes, off) as int;
            &&& zf * bs + o < size
            &&& zf * bs + off + len_off == zf * bs + o + spec_entry_len(t, o)
            &&& spec_entry_len(t, o) > 0
            &&& spec_next_dirent(store0, blocks, bs, size, zf * bs + off) == if spec_entry_fits(bytes, off) {
                Ok::<Option<(u32, Seq<u8>, u16)>, KernelError>(Some((spec_entry_inode(bytes, off),
                    spec_entry_name(bytes, off), spec_entry_len(bytes, off))))
            } else {
                Err::<Option<(u32, Seq<u8>, u16)>, KernelError>(KernelError::InvalidInode)
            }
            &&& spec_next_dirent(store1, blocks, bs, size, zf * bs + o)
                == Ok::<Option<(u32, Seq<u8>, u16)>, KernelError>(Some((inode, name, spec_entry_len(t, o))))
            &&& spec_entry_inode(bytes, off) != 0 && spec_entry_fits(bytes, off) ==> {
                &&& o > off
                &&& spec_next_dirent(store1, blocks, bs, size, zf * bs + off)
                    == Ok::<Option<(u32, Seq<u8>, u16)>, KernelError>(Some((spec_entry_inode(bytes, off),
                        spec_entry_name(bytes, off), (o - off) as u16)))
            }
            &&& spec_entry_inode(bytes, off) == 0 ==> o == off
        }),
{
    let bs = store0.block_size as int;
    let bytes = store0.block(b as int);
    let t = store1.block(b as int);
    let len_off = spec_entry_len(bytes, off) as int;
    lemma_block_bounds(store0, b as int);
    lemma_read_after_write(store0, b as int, b as int, t);
    lemma_change_inside_entry(bytes, t, off, inode, name, file_type);
    assert(store1.block_size == store0.block_size);
    assert(store1.wf() && store1.has_block(b as int) && store1.block(b as int) == t);
    assert(spec_file_block(store1, blocks, bs, zf) == spec_file_block(store0, blocks, bs, zf));
    let o = spec_new_entry_offset(bytes, off);
    assert(o + DIRENT_HEADER_SIZE + name.len() <= bs);
    assert((zf + 1) * bs == zf * bs + bs) by (nonlinear_arith);
    lemma_dirent_in_block(store0, blocks, size, zf, b, off);
    lemma_dirent_in_block(store1, blocks, size, zf, b, off);
    lemma_dirent_in_block(store1, blocks, size, zf, b, o);
    assert(spec_entry_name(t, o) =~= name);
    if spec_entry_inode(bytes, off) != 0 {
        assert(t[off] == bytes[off] && t[off + 1] == bytes[off + 1] && t[off + 2] == bytes[off + 2]
            && t[off + 3] == bytes[off + 3] && t[off + 6] == bytes[off + 6]);
        assert(spec_entry_name(t, off) =~= spec_entry_name(bytes, off));
    }
}

/// At the entry where a new entry went, a lookup of the new name finds the new inode.
#[verifier::spinoff_prover]
proof fn lemma_at_added_entry_name(store0: BlockStoreView, store1: BlockStoreView, blocks: Seq<u32>, size: int,
    zf: int, b: u32, off: int, inode: u32, name: Seq<u8>, file_type: u8)
    requires
        added_layout(store0, store1, blocks, size, zf, b, off, spec_entry_len(store0.block(b as int), off) as int),
        name.len() < 256,
        spec_scan_for_space(store0.block(b as int), 0, spec_min_entry_len(name.len() as int))
            == Ok::<Option<int>, KernelError>(Some(off)),
        entry_written(store0.block(b as int), store1.block(b as int), off, inode, name, file_type),
        spec_lookup(store0, blocks, store0.block_size as int, size, zf * (store0.block_size as int) + off, name)
            == Err::<u32, KernelError>(KernelError::FileNotFound),
    ensures
        spec_lookup(store1, blocks, store0.block_size as int, size, zf * (store0.block_size as int) + off, name)
            == Ok::<u32, KernelError>(inode),
{
    let bs = store0.block_size as int;
    let bytes = store0.block(b as int);
    let o = spec_new_entry_offset(bytes, off);
    lemma_added_entry_reads(store0, store1, blocks, size, zf, b, off, inode, name, file_type);
    assert(spec_lookup(store1, blocks, bs, size, zf * bs + o, name) == Ok::<u32, KernelError>(inode));
}

/// At the entry where a new entry went, a lookup of another name that found a live inode finds
/// it still.
#[verifier::spinoff_prover]
#[verifier::rlimit(40)]
proof fn lemma_at_added_entry_other(store0: BlockStoreView, store1: BlockStoreView, blocks: Seq<u32>, size: int,
    zf: int, b: u32, off: int, inode: u32, name: Seq<u8>, file_type: u8, name2: Seq<u8>)
    requires
        added_layout(store0, store1, blocks, size, zf, b, off, spec_entry_len(store0.block(b as int), off) as int),
        name.len() < 256,
        spec_scan_for_space(store0.block(b as int), 0, spec_min_entry_len(name.len() as int))
            == Ok::<Option<int>, KernelError>(Some(off)),
        entry_written(store0.block(b as int), store1.block(b as int), off, inode, name, file_type),
        spec_lookup(store0, blocks, store0.block_size as int, size, zf * (store0.block_size as int) + off, name)
            == Err::<u32, KernelError>(KernelError::FileNotFound),
        name2 != name,
    ensures
        match spec_lookup(store0, blocks, store0.block_size as int, size, zf * (store0.block_size as int) + off, name2) {
            Ok(i2) => i2 != 0 ==> spec_lookup(store1, blocks, store0.block_size as int, size,
                zf * (store0.block_size as int) + off, name2) == Ok::<u32, KernelError>(i2),
            Err(_) => true,
        },
{
    let bs = store0.block_size as int;
    let target = zf * bs + off;
    let bytes = store0.block(b as int);
    let len_off = spec_entry_len(bytes, off) as int;
    let t = store1.block(b as int);
    let o = spec_new_entry_offset(bytes, off);
    let after = zf * bs + o;
    lemma_added_entry_reads(store0, store1, blocks, size, zf, b, off, inode, name, file_type);
    if spec_entry_fits(bytes, off) && spec_entry_name(bytes, off) != name2 {
        lemma_lookup_past_change(store0, store1, blocks, size, zf, b, off, len_off, target + len_off, name2);
        assert(spec_lookup(store1, blocks, bs, size, after, name2) == if target + len_off >= size {
            Err::<u32, KernelError>(KernelError::FileNotFound) } else {
            spec_lookup(store1, blocks, bs, size, target + len_off, name2) });
        assert(spec_lookup(store0, blocks, bs, size, target, name2) == if len_off == 0 {
            Err::<u32, KernelError>(KernelError::InvalidInode) } else if target + len_off >= size {
            Err::<u32, KernelError>(KernelError::FileNotFound) } else {
            spec_lookup(store0, blocks, bs, size, target + len_off, name2) });
        if spec_entry_inode(bytes, off) != 0 {
            assert(spec_lookup(store1, blocks, bs, size, target, name2) == spec_lookup(store1, blocks, bs, size, after, name2));
        }
    }
}

/// Along the walk to the entry where a new entry went, a lookup of the new name finds the new
/// inode, and a lookup of another name that found a live inode finds it still.
proof fn lemma_added_entry_found(store0: BlockStoreView, store1: BlockStoreView, blocks: Seq<u32>, size: int,
    zf: int, b: u32, off: int, p: int, inode: u32, name: Seq<u8>, file_type: u8, name2: Seq<u8>)
    requires
        added_layout(store0, store1, blocks, size, zf, b, off, spec_entry_len(store0.block(b as int), off) as int),
        name.len() < 256,
        spec_scan_for_space(store0.block(b as int), 0, spec_min_entry_len(name.len() as int))
            == Ok::<Option<int>, KernelError>(Some(off)),
        entry_written(store0.block(b as int), store1.block(b as int), off, inode, name, file_type),
        0 <= p,
        walk_reaches(store0, blocks, store0.block_size as int, size, p, zf * (store0.block_size as int) + off),
        spec_lookup(store0, blocks, store0.block_size as int, size, p, name) == Err::<u32, KernelError>(KernelError::FileNotFound),
    ensures
        spec_lookup(store1, blocks, store0.block_size as int, size, p, name) == Ok::<u32, KernelError>(inode),
        match spec_lookup(store0, blocks, store0.block_size as int, size, p, name2) {
            Ok(i2) => i2 != 0 ==> spec_lookup(store1, blocks, store0.block_size as int, size, p, name2)
                == Ok::<u32, KernelError>(i2),
            Err(_) => true,
        },
    decreases zf * (store0.block_size as int) + off - p,
{
    let bs = store0.block_size as int;
    let target = zf * bs + off;
    if p < target {
        let len_off = spec_entry_len(store0.block(b as int), off) as int;
        let len = spec_next_dirent(store0, blocks, bs, size, p).get_Ok_0().get_Some_0().2 as int;
        vstd::arithmetic::div_mod::lemma_fundamental_div_mod_converse(target, bs, zf, off);
        vstd::arithmetic::div_mod::lemma_div_is_ordered(p, target, bs);
        vstd::arithmetic::div_mod::lemma_fundamental_div_mod(p, bs);
        vstd::arithmetic::div_mod::lemma_mod_bound(p, bs);
        if p / bs == zf {
            assert(p % bs == p - zf * bs);
        }
        lemma_dirent_unchanged(store0, store1, blocks, size, zf, b, off, len_off, p);
        lemma_added_entry_found(store0, store1, blocks, size, zf, b, off, p + len, inode, name, file_type, name2);
    } else {
        lemma_at_added_entry_name(store0, store1, blocks, size, zf, b, off, inode, name, file_type);
        if name2 != name {
            lemma_at_added_entry_other(store0, store1, blocks, size, zf, b, off, inode, name, file_type, name2);
        }
    }
}

/// Adding an entry to a directory keeps the promise of its lookups: where the search for room
/// stopped at an entry of a block that lies inside the directory, no other block of the
/// directory is that block of the device nor reads it as a block table, the directory is well
/// formed, and no entry is named `name` (of fewer than 256 bytes), writing the new entry makes a
/// lookup of `name` find `inode`, and a lookup of any other name that found a live inode finds
/// that inode still.
pub proof fn lemma_add_then_lookup(store0: BlockStoreView, store1: BlockStoreView, blocks: Seq<u32>, size: int,
    off: int, inode: u32, name: Seq<u8>, file_type: u8, name2: Seq<u8>)
    requires
        store0.wf(),
        store0.block_size >= DIRENT_HEADER_SIZE,
        blocks.len() == 15,
        name.len() < 256,
        spec_find_space(store0, blocks, store0.block_size as int, size, 0, spec_min_entry_len(name.len() as int))
            matches Ok((Some((b, o)), zf))
            && o == off
            && (zf + 1) * (store0.block_size as int) <= size
            && (forall|z: int| 0 <= z <= size / (store0.block_size as int) && z != zf
                ==> #[trigger] spec_file_block(store0, blocks, store0.block_size as int, z) != Ok::<Option<u32>, KernelError>(Some(b)))
            && (forall|z: int| 0 <= z <= size / (store0.block_size as int)
                ==> !#[trigger] file_block_reads(store0, blocks, store0.block_size as int, z, b))
            && store1 == store0.set_block(b as int, store1.block(b as int))
            && entry_written(store0.block(b as int), store1.block(b as int), off, inode, name, file_type),
        dir_well_formed(store0, blocks, store0.block_size as int, size),
        spec_lookup(store0, blocks, store0.block_size as int, size, 0, name)
            == Err::<u32, KernelError>(KernelError::FileNotFound),
    ensures
        spec_lookup(store1, blocks, store1.block_size as int, size, 0, name) == Ok::<u32, KernelError>(inode),
        match spec_lookup(store0, blocks, store0.block_size as int, size, 0, name2) {
            Ok(i2) => i2 != 0 ==> spec_lookup(store1, blocks, store1.block_size as int, size, 0, name2)
                == Ok::<u32, KernelError>(i2),
            Err(_) => true,
        },
{
    let bs = store0.block_size as int;
    let ml = spec_min_entry_len(name.len() as int);
    let found = spec_find_space(store0, blocks, bs, size, 0, ml).get_Ok_0();
    let b = found.0.get_Some_0().0;
    let zf = found.1;
    lemma_find_space_at(store0, blocks, bs, size, 0, ml, b, off, zf);
    lemma_well_formed_reaches_found(store0, blocks, size, ml, b, off, zf);
    let bytes = store0.block(b as int);
    let t = store1.block(b as int);
    lemma_change_inside_entry(bytes, t, off, inode, name, file_type);
    lemma_block_bounds(store0, b as int);
    lemma_read_after_write(store0, b as int, b as int, t);
    lemma_scan_found(bytes, 0, ml);
    assert(off < bs);
    assert forall|z: int| 0 <= z <= size / bs implies
        #[trigger] spec_file_block(store1, blocks, bs, z) == spec_file_block(store0, blocks, bs, z) by {
        assert(!file_block_reads(store0, blocks, bs, z, b));
        lemma_file_block_frame(store0, b, t, blocks, bs, z);
    }
    assert(added_layout(store0, store1, blocks, size, zf, b, off, spec_entry_len(bytes, off) as int));
    lemma_added_entry_found(store0, store1, blocks, size, zf, b, off, 0, inode, name, file_type, name2);
}

/// A directory grown from `blocks0` over `store0` to `blocks1` over `store1` by block `z`, which
/// is device block `b1`: the blocks before `z` lie where they lay and read as they read.
pub open spec fn grown_layout(store0: BlockStoreView, store1: BlockStoreView, blocks0: Seq<u32>, blocks1: Seq<u32>,
    bs: int, z: int, b1: u32) -> bool
{
    &&& 0 <= z
    &&& spec_file_block(store1, blocks1, bs, z) == Ok::<Option<u32>, KernelError>(Some(b1))
    &&& forall|zz: int| 0 <= zz < z
        ==> #[trigger] spec_file_block(store1, blocks1, bs, zz) == spec_file_block(store0, blocks0, bs, zz)
    &&& forall|zz: int| 0 <= zz < z ==> match #[trigger] spec_file_block(store0, blocks0, bs, zz) {
        Ok(Some(c)) => store1.read(c as int) == store0.read(c as int),
        _ => true,
    }
}

/// Along the walk of a directory to the end of its blocks, a lookup in the directory grown by
/// a block that holds a new entry finds the new entry, and finds every name found before.
proof fn lemma_walk_to_new_block(store0: BlockStoreView, store1: BlockStoreView, blocks0: Seq<u32>, blocks1: Seq<u32>,
    size: int, z: int, b1: u32, p: int, inode: u32, name: Seq<u8>, file_type: u8, name2: Seq<u8>)
    requires
        store0.wf(),
        store1.wf(),
        store1.block_size == store0.block_size,
        z * (store0.block_size as int) == size,
        grown_layout(store0, store1, blocks0, blocks1, store0.block_size as int, z, b1),
        entry_added(store1, b1, 0, inode, name, file_type),
        name.len() < 256,
        0 <= p,
        walk_reaches(store0, blocks0, store0.block_size as int, size + store0.block_size, p, size),
        spec_lookup(store0, blocks0, store0.block_size as int, size, p, name) == Err::<u32, KernelError>(KernelError::FileNotFound),
    ensures
        spec_lookup(store1, blocks1, store0.block_size as int, size + store0.block_size, p, name) == Ok::<u32, KernelError>(inode),
        match spec_lookup(store0, blocks0, store0.block_size as int, size, p, name2) {
            Ok(i2) => spec_lookup(store1, blocks1, store0.block_size as int, size + store0.block_size, p, name2)
                == Ok::<u32, KernelError>(i2),
            Err(_) => true,
        },
    decreases size - p,
{
    let bs = store0.block_size as int;
    if p < size {
        let zz = p / bs;
        vstd::arithmetic::div_mod::lemma_fundamental_div_mod(p, bs);
        vstd::arithmetic::div_mod::lemma_mod_bound(p, bs);
        vstd::arithmetic::div_mod::lemma_div_pos_is_pos(p, bs);
        if zz >= z {
            assert(zz * bs >= z * bs) by (nonlinear_arith) requires zz >= z, bs > 0;
        }
        assert(spec_file_block(store1, blocks1, bs, zz) == spec_file_block(store0, blocks0, bs, zz));
        assert(spec_next_dirent(store1, blocks1, bs, size + bs, p) == spec_next_dirent(store0, blocks0, bs, size + bs, p));
        assert(spec_next_dirent(store0, blocks0, bs, size, p) == spec_next_dirent(store0, blocks0, bs, size + bs, p));
        let len = spec_next_dirent(store0, blocks0, bs, size + bs, p).get_Ok_0().get_Some_0().2 as int;
        lemma_walk_to_new_block(store0, store1, blocks0, blocks1, size, z, b1, p + len, inode, name, file_type, name2);
    } else {
        let t = store1.block(b1 as int);
        vstd::arithmetic::div_mod::lemma_fundamental_div_mod_converse(size, bs, z, 0);
        assert(spec_file_block(store1, blocks1, bs, z) == Ok::<Option<u32>, KernelError>(Some(b1)));
        assert(spec_entry_name(t, 0) =~= name);
    }
}

/// Adding an entry to a full directory keeps the promise of its lookups: where the directory
/// grows by a block `z` (reached directly or through block tables) placed right at its end,
/// holding an entry for `inode` named `name` (of fewer than 256 bytes) at its start, the old
/// directory is well formed, the blocks of the directory lie and read as before, and no entry
/// was named `name`, a lookup of `name` in the
/// grown directory finds `inode`, and a lookup of any other name finds what it found before.
pub proof fn lemma_add_block_then_lookup(store0: BlockStoreView, store1: BlockStoreView, blocks0: Seq<u32>,
    blocks1: Seq<u32>, size: int, z: int, b1: u32, inode: u32, name: Seq<u8>, file_type: u8, name2: Seq<u8>)
    requires
        store0.wf(),
        store1.wf(),
        store1.block_size == store0.block_size,
        z * (store0.block_size as int) == size,
        grown_layout(store0, store1, blocks0, blocks1, store0.block_size as int, z, b1),
        entry_added(store1, b1, 0, inode, name, file_type),
        name.len() < 256,
        dir_well_formed(store0, blocks0, store0.block_size as int, size),
        spec_lookup(store0, blocks0, store0.block_size as int, size, 0, name) == Err::<u32, KernelError>(KernelError::FileNotFound),
    ensures
        spec_lookup(store1, blocks1, store1.block_size as int, size + store1.block_size, 0, name) == Ok::<u32, KernelError>(inode),
        match spec_lookup(store0, blocks0, store0.block_size as int, size, 0, name2) {
            Ok(i2) => spec_lookup(store1, blocks1, store1.block_size as int, size + store1.block_size, 0, name2)
                == Ok::<u32, KernelError>(i2),
            Err(_) => true,
        },
{
    lemma_well_formed_reaches_end(store0, blocks0, size, z);
    lemma_walk_to_new_block(store0, store1, blocks0, blocks1, size, z, b1, 0, inode, name, file_type, name2);
}

/// In a well-formed directory whose size is `z` whole blocks, the walk of its entries reaches
/// its end.
proof fn lemma_well_formed_reaches_end(store0: BlockStoreView, blocks0: Seq<u32>, size: int, z: int)
    requires
        store0.wf(),
        0 <= z,
        z * (store0.block_size as int) == size,
        dir_well_formed(store0, blocks0, store0.block_size as int, size),
    ensures
        walk_reaches(store0, blocks0, store0.block_size as int, size + store0.block_size, 0, size),
{
    let bs = store0.block_size as int;
    assert(reaches_block(store0, blocks0, bs, size, z));
    lemma_walk_resize(store0, blocks0, bs, size + 1, size + bs, 0, size);
}

/// The allocation that grows a directory by block `z` keeps its earlier blocks apart: each
/// block before `z` lies where it lay and reads as it read, and the new block `b` is neither one
/// of them nor one of the block tables that lead to them or to block `z`.
pub open spec fn growth_apart(sb: Ext2SuperBlock, store0: BlockStoreView, blocks0: Seq<u32>, inode: u32, z: int, b: u32)
    -> bool
{
    let bs = sb.block_size as int;
    let a = spec_file_block_alloc(sb, alloc_state(sb, store0), blocks0, inode, z);
    &&& file_alloc_apart(sb, alloc_state(sb, store0), blocks0, inode, z)
    &&& !file_block_reads(a.1.store, a.2, bs, z, b)
    &&& forall|zz: int| 0 <= zz < z ==> {
        &&& #[trigger] spec_file_block(a.1.store, a.2, bs, zz) == spec_file_block(store0, blocks0, bs, zz)
        &&& !file_block_reads(a.1.store, a.2, bs, zz, b)
        &&& match spec_file_block(store0, blocks0, bs, zz) {
            Ok(Some(c)) => c != b && a.1.store.read(c as int) == store0.read(c as int),
            _ => true,
        }
    }
}

/// Growing a directory by a block keeps the promise of its lookups, whether the new block is a
/// direct one or one reached through block tables: where the block `b` that the allocation for
/// block `z` gives (`z` lying right at the directory's end) is written with an entry for
/// `inode` named `name` at its start, the allocation keeps the earlier blocks apart, the old
/// directory is well formed, and no entry was named `name`, a lookup of `name` finds `inode`
/// and a lookup of any other name finds what it found before.
pub proof fn lemma_grow_then_lookup(sb: Ext2SuperBlock, store0: BlockStoreView, blocks0: Seq<u32>, dir_inode: u32,
    size: int, z: int, b: u32, t: Seq<u8>, inode: u32, name: Seq<u8>, file_type: u8, name2: Seq<u8>)
    requires
        store0.wf(),
        store0.block_size == sb.block_size,
        tables_indexable(sb.block_size as int),
        blocks0.len() == 15,
        0 <= z,
        z * (sb.block_size as int) == size,
        spec_file_block_alloc(sb, alloc_state(sb, store0), blocks0, dir_inode, z).0 == Ok::<Option<u32>, KernelError>(Some(b)),
        spec_file_block_alloc(sb, alloc_state(sb, store0), blocks0, dir_inode, z).1.store.has_block(b as int),
        t.len() == sb.block_size,
        growth_apart(sb, store0, blocks0, dir_inode, z, b),
        entry_in_bytes(t, 0, inode, name, file_type),
        name.len() < 256,
        dir_well_formed(store0, blocks0, store0.block_size as int, size),
        spec_lookup(store0, blocks0, store0.block_size as int, size, 0, name) == Err::<u32, KernelError>(KernelError::FileNotFound),
    ensures
        ({
            let a = spec_file_block_alloc(sb, alloc_state(sb, store0), blocks0, dir_inode, z);
            let store1 = a.1.store.set_block(b as int, t);
            &&& spec_lookup(store1, a.2, store1.block_size as int, size + store1.block_size, 0, name) == Ok::<u32, KernelError>(inode)
            &&& match spec_lookup(store0, blocks0, store0.block_size as int, size, 0, name2) {
                Ok(i2) => spec_lookup(store1, a.2, store1.block_size as int, size + store1.block_size, 0, name2)
                    == Ok::<u32, KernelError>(i2),
                Err(_) => true,
            }
        }),
{
    let bs = sb.block_size as int;
    let st = alloc_state(sb, store0);
    let a = spec_file_block_alloc(sb, st, blocks0, dir_inode, z);
    let store1 = a.1.store.set_block(b as int, t);
    lemma_file_block_alloc_store(sb, st, blocks0, dir_inode, z);
    lemma_file_alloc_readback(sb, st, blocks0, dir_inode, z);
    lemma_file_block_frame(a.1.store, b, t, a.2, bs, z);
    lemma_read_after_write(a.1.store, b as int, b as int, t);
    assert forall|zz: int| 0 <= zz < z implies
        #[trigger] spec_file_block(store1, a.2, bs, zz) == spec_file_block(store0, blocks0, bs, zz) by {
        assert(spec_file_block(a.1.store, a.2, bs, zz) == spec_file_block(store0, blocks0, bs, zz));
        assert(!file_block_reads(a.1.store, a.2, bs, zz, b));
        lemma_file_block_frame(a.1.store, b, t, a.2, bs, zz);
    }
    assert forall|zz: int| 0 <= zz < z implies match #[trigger] spec_file_block(store0, blocks0, bs, zz) {
        Ok(Some(c)) => store1.read(c as int) == store0.read(c as int),
        _ => true,
    } by {
        assert(spec_file_block(a.1.store, a.2, bs, zz) == spec_file_block(store0, blocks0, bs, zz));
        if let Ok(Some(c)) = spec_file_block(store0, blocks0, bs, zz) {
            assert(c != b && a.1.store.read(c as int) == store0.read(c as int));
            lemma_read_after_write(a.1.store, b as int, c as int, t);
        }
    }
    assert(entry_added(store1, b, 0, inode, name, file_type));
    assert(grown_layout(store0, store1, blocks0, a.2, bs, z, b));
    lemma_well_formed_reaches_end(store0, blocks0, size, z);
    lemma_walk_to_new_block(store0, store1, blocks0, a.2, size, z, b, 0, inode, name, file_type, name2);
}

} // verus!
