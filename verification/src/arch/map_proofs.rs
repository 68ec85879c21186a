use vstd::prelude::*;

use crate::errors::KernelError;
use crate::mm::{MemoryType, MemoryPermissions};
use crate::mm::pages::{PagePoolView, PAGE_SIZE, PAGE_WORDS, lemma_page_addr_bound};
use super::mmu::{TableVisitor, MapRange, MapBlock, MAX_RANGE_END, TL0_ADDR_BITS, TT_TABLE_MASK, TT_BLOCK_MASK,
    spec_walk_table, spec_lookup_level, spec_translate, spec_table_index, spec_granule, spec_is_block, spec_is_table,
    spec_is_empty, spec_visit_empty, spec_visit_table_after, spec_memory_type_flags, spec_memory_permissions_flags,
    valid_level, walk_reads_above, spec_lookup_level_mut, lemma_update_page_addr_translates, TT_ACCESS_FLAG};
use super::unmap_proofs::lemma_page_range_bits;

verus! {

/// The descriptor flags with which existing memory is mapped for `access`.
pub open spec fn existing_flags(access: MemoryPermissions) -> u64 {
    spec_memory_type_flags(MemoryType::Existing) | spec_memory_permissions_flags(access)
}

/// The visitor of `map_existing_range` for the memory at `paddr` mapped from `start`.
pub open spec fn existing_mapper(access: MemoryPermissions, start: u64, paddr: u64) -> TableVisitor {
    TableVisitor::Mapper(MapRange {
        mtype: MemoryType::Existing,
        flags: existing_flags(access),
        map_block: MapBlock::Existing { start: start, paddr: paddr },
    })
}

/// The page descriptor that maps the page at `pa` with `flags`.
pub open spec fn page_descriptor(pa: u64, flags: u64) -> u64 {
    (pa & TT_BLOCK_MASK) | flags | 3
}

/// The walk for `v` from `table` at level `bits` goes through tables of the pool down to the
/// last-level table `t3`, which is none of the tables above it.
pub open spec fn tables_lead_to(pool: PagePoolView, bits: usize, table: u64, v: u64, t3: u64) -> bool
    decreases bits,
{
    if bits <= 12 {
        table == t3 && pool.is_page(t3)
    } else {
        let d = pool.word(table, spec_table_index(bits, v));
        &&& pool.is_page(table)
        &&& table != t3
        &&& spec_is_table(bits, d)
        &&& pool.is_page(d & TT_TABLE_MASK)
        &&& tables_lead_to(pool, (bits - 9) as usize, d & TT_TABLE_MASK, v, t3)
    }
}

/// The bit facts about page descriptors that the proofs need.
proof fn lemma_descriptor_bits(x: u64, flags: u64)
    ensures
        flags & 0x0000_ffff_ffff_f000u64 == 0 ==> (((x & 0x0000_ffff_ffff_f000u64) | flags | 3) & 3 == 3
            && ((x & 0x0000_ffff_ffff_f000u64) | flags | 3) & 0x0000_ffff_ffff_f000u64 == x & 0x0000_ffff_ffff_f000u64),
        (x % 4096 == 0 && x < 0x1_0000_0000_0000u64) ==> x & 0x0000_ffff_ffff_f000u64 == x,
        (0x400u64 | ((0u64 & 0x7) << 2u64) | (0xc0u64 | 0x0060_0000_0000_0000u64)) & 0x0000_ffff_ffff_f000u64 == 0,
        (0x400u64 | ((0u64 & 0x7) << 2u64) | 0xc0u64) & 0x0000_ffff_ffff_f000u64 == 0,
        (0x400u64 | ((0u64 & 0x7) << 2u64) | (0x40u64 | 0x0060_0000_0000_0000u64)) & 0x0000_ffff_ffff_f000u64 == 0,
        (0x400u64 | ((0u64 & 0x7) << 2u64) | 0x40u64) & 0x0000_ffff_ffff_f000u64 == 0,
        ((x & 0x0000_ffff_ffff_f000u64) | 3) & 3 == 3,
        ((x & 0x0000_ffff_ffff_f000u64) | 3) & 0x0000_ffff_ffff_f000u64 == x & 0x0000_ffff_ffff_f000u64,
        0u64 & 3 == 0,
        0u64 & 0x0000_ffff_ffff_f000u64 == 0,
{
    assert((flags & 0x0000_ffff_ffff_f000u64 == 0 ==> (((x & 0x0000_ffff_ffff_f000u64) | flags | 3) & 3 == 3
            && ((x & 0x0000_ffff_ffff_f000u64) | flags | 3) & 0x0000_ffff_ffff_f000u64 == x & 0x0000_ffff_ffff_f000u64))
        && ((x % 4096 == 0 && x < 0x1_0000_0000_0000u64) ==> x & 0x0000_ffff_ffff_f000u64 == x)
        && (0x400u64 | ((0u64 & 0x7) << 2u64) | (0xc0u64 | 0x0060_0000_0000_0000u64)) & 0x0000_ffff_ffff_f000u64 == 0
        && (0x400u64 | ((0u64 & 0x7) << 2u64) | 0xc0u64) & 0x0000_ffff_ffff_f000u64 == 0
        && (0x400u64 | ((0u64 & 0x7) << 2u64) | (0x40u64 | 0x0060_0000_0000_0000u64)) & 0x0000_ffff_ffff_f000u64 == 0
        && (0x400u64 | ((0u64 & 0x7) << 2u64) | 0x40u64) & 0x0000_ffff_ffff_f000u64 == 0
        && ((x & 0x0000_ffff_ffff_f000u64) | 3) & 3 == 3
        && ((x & 0x0000_ffff_ffff_f000u64) | 3) & 0x0000_ffff_ffff_f000u64 == x & 0x0000_ffff_ffff_f000u64
        && 0u64 & 3 == 0 && 0u64 & 0x0000_ffff_ffff_f000u64 == 0) by (bit_vector);
}

/// Two places in different pages of the pool are different places.
proof fn lemma_word_pos_apart(pool: PagePoolView, t: u64, i: int, u: u64, j: int)
    requires
        pool.wf(),
        pool.is_page(t),
        pool.is_page(u),
        t != u,
        0 <= i < PAGE_WORDS,
        0 <= j < PAGE_WORDS,
    ensures
        PagePoolView::word_pos(t, i) != PagePoolView::word_pos(u, j),
{
    lemma_page_addr_bound(pool, t);
    lemma_page_addr_bound(pool, u);
    let pt = PagePoolView::page_index(t);
    let pu = PagePoolView::page_index(u);
    assert(pt != pu) by {
        vstd::arithmetic::div_mod::lemma_fundamental_div_mod(t as int, 4096);
        vstd::arithmetic::div_mod::lemma_fundamental_div_mod(u as int, 4096);
    }
    if pt < pu {
        assert(pt * 512 + 512 <= pu * 512) by (nonlinear_arith) requires pt < pu;
    } else {
        assert(pu * 512 + 512 <= pt * 512) by (nonlinear_arith) requires pu < pt;
    }
}

/// Mapping the pages from `s` to `end`, empty before, in a last-level table writes each one's
/// page descriptor and changes no word of any other page.
proof fn lemma_map_leaves(pool: PagePoolView, pool1: PagePoolView, t3: u64, s: u64, end: u64, access: MemoryPermissions,
    start: u64, paddr: u64)
    requires
        pool.wf(),
        pool.is_page(t3),
        s % 4096 == 0,
        start <= s < end <= MAX_RANGE_END,
        ((end - 1) as u64) >> 21 == s >> 21,
        paddr + (end - start) <= u64::MAX,
        forall|v: u64| s <= v < end && v % 4096 == 0 ==> #[trigger] pool.word(t3, spec_table_index(12, v)) == 0,
        spec_walk_table(existing_mapper(access, start, paddr), pool, 12, t3, s, end, spec_table_index(12, s)).0 is Ok,
        spec_walk_table(existing_mapper(access, start, paddr), pool, 12, t3, s, end, spec_table_index(12, s)).1 == pool1,
    ensures
        pool1.wf(),
        pool1.refs == pool.refs,
        forall|t: u64, i: int| t != t3 && pool.is_page(t) && 0 <= i < PAGE_WORDS ==> #[trigger] pool1.word(t, i) == pool.word(t, i),
        forall|i: int| 0 <= i < spec_table_index(12, s) ==> #[trigger] pool1.word(t3, i) == pool.word(t3, i),
        forall|v: u64| s <= v < end && v % 4096 == 0 ==> #[trigger] pool1.word(t3, spec_table_index(12, v))
            == page_descriptor((paddr + (v - start)) as u64, existing_flags(access)),
    decreases end - s,
{
    let m = existing_mapper(access, start, paddr);
    let idx = spec_table_index(12, s);
    super::mmu::lemma_level_facts(12, s);
    lemma_page_addr_bound(pool, t3);
    let d = pool.word(t3, idx);
    assert(d == 0);
    lemma_descriptor_bits(0, 0);
    assert(!spec_is_block(12, d) && !spec_is_table(12, d) && spec_is_empty(d));
    let pa = (paddr + (s - start)) as u64;
    let p1 = pool.set_word(t3, idx, (pa & TT_BLOCK_MASK) | existing_flags(access) | 3);
    assert(spec_visit_empty(m, pool, 12, t3, idx, s, end) == (Ok::<(), KernelError>(()), p1));
    assert forall|t: u64, i: int| t != t3 && pool.is_page(t) && 0 <= i < PAGE_WORDS implies
        #[trigger] p1.word(t, i) == pool.word(t, i) by {
        lemma_word_pos_apart(pool, t, i, t3, idx);
    }
    let s2 = (s + 4096) as u64;
    if s2 < end {
        lemma_page_range_bits(s, s2, (end - 1) as u64);
        lemma_page_range_bits(s2, s2, (end - 1) as u64);
        assert(spec_table_index(12, s2) == idx + 1);
        assert forall|v: u64| s2 <= v < end && v % 4096 == 0 implies #[trigger] p1.word(t3, spec_table_index(12, v)) == 0 by {
            lemma_page_range_bits(s, v, (end - 1) as u64);
            lemma_page_range_bits(s2, v, (end - 1) as u64);
            assert(spec_table_index(12, v) >= idx + 1);
            super::mmu::lemma_level_facts(12, v);
            assert(pool.word(t3, spec_table_index(12, v)) == 0);
            assert(PagePoolView::word_pos(t3, spec_table_index(12, v)) != PagePoolView::word_pos(t3, idx));
        }
        assert(p1.wf());
        lemma_map_leaves(p1, pool1, t3, s2, end, access, start, paddr);
        assert forall|i: int| 0 <= i < idx implies #[trigger] pool1.word(t3, i) == pool.word(t3, i) by {
            assert(pool1.word(t3, i) == p1.word(t3, i));
        }
        assert forall|v: u64| s <= v < end && v % 4096 == 0 implies #[trigger] pool1.word(t3, spec_table_index(12, v))
            == page_descriptor((paddr + (v - start)) as u64, existing_flags(access)) by {
            if v < s2 {
                assert(v == s);
                assert(p1.word(t3, idx) == page_descriptor(pa, existing_flags(access)));
                assert(pool1.word(t3, idx) == p1.word(t3, idx));
            }
        }
    } else {
        assert(spec_walk_table(m, p1, 12, t3, s2, end, idx + 1) == (Ok::<(), KernelError>(()), p1));
        assert(pool1 == p1);
        assert forall|v: u64| s <= v < end && v % 4096 == 0 implies #[trigger] pool1.word(t3, spec_table_index(12, v))
            == page_descriptor((paddr + (v - start)) as u64, existing_flags(access)) by {
            assert(v == s);
        }
    }
}

/// The flags of existing memory hold no address bits.
proof fn lemma_existing_flags(access: MemoryPermissions)
    ensures
        existing_flags(access) & TT_BLOCK_MASK == 0,
{
    lemma_descriptor_bits(0, 0);
}

/// Mapping existing memory over a range of whole pages that lies in one 2 MiB block, none of
/// them mapped before: where the walk for the range goes through tables of the pool (each none
/// of the tables below it) until it meets an empty descriptor, from which the tables are made,
/// when `map_existing_range` succeeds every address `v` of the range translates to
/// `paddr + (v - start)`.
pub proof fn lemma_map_existing_translates(pool: PagePoolView, pool1: PagePoolView, root: u64, start: u64, len: usize,
    paddr: u64, access: MemoryPermissions, v: u64)
    requires
        pool.wf(),
        start % (PAGE_SIZE as u64) == 0,
        len > 0,
        len % PAGE_SIZE == 0,
        start + len <= MAX_RANGE_END,
        ((start + len - 1) as u64) >> 21 == start >> 21,
        paddr % (PAGE_SIZE as u64) == 0,
        paddr + len <= 0x1_0000_0000_0000,
        path_ready(pool, TL0_ADDR_BITS, root, start),
        path_unmapped(pool, TL0_ADDR_BITS, root, start, (start + len) as u64),
        spec_walk_table(existing_mapper(access, start, paddr), pool, TL0_ADDR_BITS, root, start, (start + len) as u64,
            spec_table_index(TL0_ADDR_BITS, start)) == (Ok::<(), KernelError>(()), pool1),
        start <= v < start + len,
    ensures
        spec_translate(pool1, root, v) == Ok::<u64, KernelError>((paddr + (v - start)) as u64),
{
    let end = (start + len) as u64;
    lemma_map_alloc_level(pool, pool1, TL0_ADDR_BITS, root, start, end, access, start, paddr);
    let a = (v - v % (PAGE_SIZE as u64)) as u64;
    assert(a % 4096 == 0 && start <= a <= v && v - a < 4096) by {
        vstd::arithmetic::div_mod::lemma_fundamental_div_mod(v as int, 4096);
        vstd::arithmetic::div_mod::lemma_mod_bound(v as int, 4096);
        vstd::arithmetic::div_mod::lemma_fundamental_div_mod(start as int, 4096);
        vstd::arithmetic::div_mod::lemma_mod_multiples_basic(v as int / 4096, 4096);
        assert(a == 4096 * (v as int / 4096));
        assert(start == 4096 * (start as int / 4096));
        if a < start {
            assert(v as int / 4096 < start as int / 4096) by (nonlinear_arith)
                requires 4096 * (v as int / 4096) < 4096 * (start as int / 4096);
            assert(v as int / 4096 + 1 <= start as int / 4096);
            assert(4096 * (v as int / 4096) + 4096 <= 4096 * (start as int / 4096)) by (nonlinear_arith)
                requires v as int / 4096 + 1 <= start as int / 4096;
        }
    }
    let pa = (paddr + (a - start)) as u64;
    assert(pa % 4096 == 0) by {
        vstd::arithmetic::div_mod::lemma_fundamental_div_mod(paddr as int, 4096);
        vstd::arithmetic::div_mod::lemma_mod_multiples_basic(paddr as int / 4096 + (a as int / 4096 - start as int / 4096), 4096);
        vstd::arithmetic::div_mod::lemma_fundamental_div_mod(a as int, 4096);
        vstd::arithmetic::div_mod::lemma_fundamental_div_mod(start as int, 4096);
        assert(pa == 4096 * (paddr as int / 4096 + (a as int / 4096 - start as int / 4096))) by (nonlinear_arith)
            requires pa == paddr + (a - start), paddr == 4096 * (paddr as int / 4096), a == 4096 * (a as int / 4096),
                start == 4096 * (start as int / 4096);
    }
    lemma_existing_flags(access);
    lemma_descriptor_bits(pa, existing_flags(access));
    assert(v % 4096 == v - a);
    assert(spec_lookup_level(pool1, TL0_ADDR_BITS, root, a) matches Ok((t3, ix, g)) && ix == spec_table_index(12, a)
        && g == PAGE_SIZE as u64 && pool1.word(t3, ix) == page_descriptor(pa, existing_flags(access)));
}

/// A walk through tables down to a last-level table that is none of the tables above it reads
/// no place of that table at a level above.
proof fn lemma_lead_not_above(pool: PagePoolView, bits: usize, table: u64, v: u64, t3: u64, i: int)
    requires
        pool.wf(),
        valid_level(bits),
        tables_lead_to(pool, bits, table, v, t3),
        pool.is_page(t3),
        0 <= i < PAGE_WORDS,
    ensures
        !walk_reads_above(pool, bits, table, v, t3, i),
    decreases bits,
{
    if bits > 12 {
        let index = spec_table_index(bits, v);
        super::mmu::lemma_level_facts(bits, v);
        lemma_word_pos_apart(pool, table, index, t3, i);
        let d = pool.word(table, index);
        lemma_lead_not_above(pool, (bits - 9) as usize, d & TT_TABLE_MASK, v, t3, i);
    }
}

/// A walk through tables down to a last-level table whose descriptor for `v` maps a page ends
/// at that descriptor.
proof fn lemma_lead_lookup(pool: PagePoolView, bits: usize, table: u64, v: u64, t3: u64)
    requires
        valid_level(bits),
        tables_lead_to(pool, bits, table, v, t3),
        spec_is_block(12, pool.word(t3, spec_table_index(12, v))),
    ensures
        spec_lookup_level(pool, bits, table, v)
            == Ok::<(u64, int, u64), KernelError>((t3, spec_table_index(12, v), PAGE_SIZE as u64)),
    decreases bits,
{
    if bits > 12 {
        let d = pool.word(table, spec_table_index(bits, v));
        lemma_lead_lookup(pool, (bits - 9) as usize, d & TT_TABLE_MASK, v, t3);
    }
}

/// Giving a mapped page a new physical address: where the walk for the page at `vaddr` goes
/// through tables down to a last-level table `t3` (none of the tables above it) whose
/// descriptor maps the page, `update_page_addr` writes that descriptor without allocating, and
/// every address of the page then translates into the page at `paddr`.
pub proof fn lemma_update_page_addr_through_tables(pool: PagePoolView, root: u64, vaddr: u64, paddr: u64, offset: u64,
    t3: u64)
    requires
        pool.wf(),
        vaddr % (PAGE_SIZE as u64) == 0,
        offset < PAGE_SIZE,
        tables_lead_to(pool, TL0_ADDR_BITS, root, vaddr, t3),
        spec_is_block(12, pool.word(t3, spec_table_index(12, vaddr))),
    ensures
        ({
            let walk = spec_lookup_level_mut(pool, TL0_ADDR_BITS, root, vaddr, true);
            &&& walk.1 == pool
            &&& walk.0 == Ok::<(u64, int, u64), KernelError>((t3, spec_table_index(12, vaddr), PAGE_SIZE as u64))
            &&& spec_translate(
                pool.set_word(t3, spec_table_index(12, vaddr), (pool.word(t3, spec_table_index(12, vaddr)) & !TT_BLOCK_MASK)
                    | (paddr & TT_BLOCK_MASK) | TT_ACCESS_FLAG),
                root, (vaddr + offset) as u64) == Ok::<u64, KernelError>(((paddr & TT_BLOCK_MASK) + offset) as u64)
        }),
{
    lemma_lead_lookup(pool, TL0_ADDR_BITS, root, vaddr, t3);
    lemma_lead_page(pool, TL0_ADDR_BITS, root, vaddr, t3);
    super::mmu::lemma_level_facts(12, vaddr);
    lemma_lead_not_above(pool, TL0_ADDR_BITS, root, vaddr, t3, spec_table_index(12, vaddr));
    lemma_update_page_addr_translates(pool, root, vaddr, paddr, offset);
}

/// The last-level table that tables lead to is a page of the pool.
proof fn lemma_lead_page(pool: PagePoolView, bits: usize, table: u64, v: u64, t3: u64)
    requires
        tables_lead_to(pool, bits, table, v, t3),
    ensures
        pool.is_page(t3),
    decreases bits,
{
    if bits > 12 {
        let d = pool.word(table, spec_table_index(bits, v));
        lemma_lead_page(pool, (bits - 9) as usize, d & TT_TABLE_MASK, v, t3);
    }
}

/// The visitor of `map_paged_range` for freshly allocated pages mapped with `access`.
pub open spec fn paged_mapper(access: MemoryPermissions) -> TableVisitor {
    TableVisitor::Mapper(MapRange {
        mtype: MemoryType::Allocated,
        flags: spec_memory_type_flags(MemoryType::Allocated) | spec_memory_permissions_flags(access),
        map_block: MapBlock::Paged,
    })
}

/// The page that the `k`-th allocation after the pool `pool` gives.
pub open spec fn fresh_page(pool: PagePoolView, k: int) -> u64 {
    ((pool.num_pages() + k + 1) * PAGE_SIZE) as u64
}

/// Mapping fresh pages to the addresses from `s` to `end`, empty before, in a last-level table
/// writes into each one's descriptor the page that its own allocation gave, a page of zeroes
/// not in the pool before, and changes no word of any earlier page.
proof fn lemma_map_paged_leaves(pool: PagePoolView, pool1: PagePoolView, t3: u64, s: u64, end: u64,
    access: MemoryPermissions)
    requires
        pool.wf(),
        pool.is_page(t3),
        s % 4096 == 0,
        s < end <= MAX_RANGE_END,
        (end - s) % 4096 == 0,
        ((end - 1) as u64) >> 21 == s >> 21,
        forall|v: u64| s <= v < end && v % 4096 == 0 ==> #[trigger] pool.word(t3, spec_table_index(12, v)) == 0,
        spec_walk_table(paged_mapper(access), pool, 12, t3, s, end, spec_table_index(12, s)).0 is Ok,
        spec_walk_table(paged_mapper(access), pool, 12, t3, s, end, spec_table_index(12, s)).1 == pool1,
    ensures
        pool1.wf(),
        pool1.num_pages() == pool.num_pages() + (end - s) / 4096,
        forall|t: u64, i: int| t != t3 && pool.is_page(t) && 0 <= i < PAGE_WORDS ==> #[trigger] pool1.word(t, i) == pool.word(t, i),
        forall|i: int| 0 <= i < spec_table_index(12, s) ==> #[trigger] pool1.word(t3, i) == pool.word(t3, i),
        forall|v: u64| s <= v < end && v % 4096 == 0 ==> {
            let pa = fresh_page(pool, (v - s) / 4096);
            &&& #[trigger] pool1.word(t3, spec_table_index(12, v)) == page_descriptor(pa, existing_flags(access))
            &&& pool1.is_page(pa)
            &&& !pool.is_page(pa)
            &&& forall|i: int| 0 <= i < PAGE_WORDS ==> #[trigger] pool1.word(pa, i) == 0
        },
    decreases end - s,
{
    let m = paged_mapper(access);
    let idx = spec_table_index(12, s);
    super::mmu::lemma_level_facts(12, s);
    lemma_page_addr_bound(pool, t3);
    let d = pool.word(t3, idx);
    lemma_descriptor_bits(0, 0);
    assert(!spec_is_block(12, d) && !spec_is_table(12, d) && spec_is_empty(d));
    assert(pool.num_pages() < crate::mm::pages::MAX_PAGES) by {
        if pool.num_pages() >= crate::mm::pages::MAX_PAGES {
            assert(spec_visit_empty(m, pool, 12, t3, idx, s, end).0 is Err);
        }
    }
    let pa = pool.next_page_addr();
    let p0 = pool.push_zeroed();
    let p1 = p0.set_word(t3, idx, (pa & TT_BLOCK_MASK) | existing_flags(access) | 3);
    assert(spec_visit_empty(m, pool, 12, t3, idx, s, end) == (Ok::<(), KernelError>(()), p1));
    assert(pa == fresh_page(pool, 0));
    assert(p0.wf() && p0.is_page(t3) && p0.is_page(pa) && !pool.is_page(pa));
    assert forall|t: u64, i: int| pool.is_page(t) && 0 <= i < PAGE_WORDS implies #[trigger] p0.word(t, i) == pool.word(t, i) by {
        lemma_page_addr_bound(pool, t);
    }
    assert forall|i: int| 0 <= i < PAGE_WORDS implies #[trigger] p0.word(pa, i) == 0 by {
        lemma_page_addr_bound(p0, pa);
        assert(PagePoolView::page_index(pa) == pool.num_pages());
    }
    assert forall|t: u64, i: int| t != t3 && p0.is_page(t) && 0 <= i < PAGE_WORDS implies
        #[trigger] p1.word(t, i) == p0.word(t, i) by {
        lemma_word_pos_apart(p0, t, i, t3, idx);
    }
    let s2 = (s + 4096) as u64;
    if s2 < end {
        lemma_page_range_bits(s, s2, (end - 1) as u64);
        lemma_page_range_bits(s2, s2, (end - 1) as u64);
        assert(spec_table_index(12, s2) == idx + 1);
        assert forall|v: u64| s2 <= v < end && v % 4096 == 0 implies #[trigger] p1.word(t3, spec_table_index(12, v)) == 0 by {
            lemma_page_range_bits(s, v, (end - 1) as u64);
            lemma_page_range_bits(s2, v, (end - 1) as u64);
            super::mmu::lemma_level_facts(12, v);
            assert(pool.word(t3, spec_table_index(12, v)) == 0);
            assert(p0.word(t3, spec_table_index(12, v)) == 0);
            assert(PagePoolView::word_pos(t3, spec_table_index(12, v)) != PagePoolView::word_pos(t3, idx));
        }
        assert(p1.wf());
        assert((end - s) / 4096 == (end - s2) / 4096 + 1) by {
            vstd::arithmetic::div_mod::lemma_fundamental_div_mod((end - s2) as int, 4096);
            vstd::arithmetic::div_mod::lemma_fundamental_div_mod_converse((end - s) as int, 4096,
                (end - s2) as int / 4096 + 1, (end - s2) as int % 4096);
        }
        lemma_map_paged_leaves(p1, pool1, t3, s2, end, access);
        assert forall|i: int| 0 <= i < idx implies #[trigger] pool1.word(t3, i) == pool.word(t3, i) by {
            assert(pool1.word(t3, i) == p1.word(t3, i));
        }
        assert forall|t: u64, i: int| t != t3 && pool.is_page(t) && 0 <= i < PAGE_WORDS implies
            #[trigger] pool1.word(t, i) == pool.word(t, i) by {
            assert(p1.is_page(t));
        }
        assert forall|v: u64| s <= v < end && v % 4096 == 0 implies {
            let pa_v = fresh_page(pool, (v - s) / 4096);
            &&& #[trigger] pool1.word(t3, spec_table_index(12, v)) == page_descriptor(pa_v, existing_flags(access))
            &&& pool1.is_page(pa_v)
            &&& !pool.is_page(pa_v)
            &&& forall|i: int| 0 <= i < PAGE_WORDS ==> #[trigger] pool1.word(pa_v, i) == 0
        } by {
            if v < s2 {
                assert(v == s);
                assert((v - s) / 4096 == 0);
                assert(pool1.word(t3, idx) == p1.word(t3, idx));
                assert(pa != t3);
                assert forall|i: int| 0 <= i < PAGE_WORDS implies #[trigger] pool1.word(pa, i) == 0 by {
                    assert(pool1.word(pa, i) == p1.word(pa, i));
                    assert(p1.word(pa, i) == p0.word(pa, i));
                }
            } else {
                assert((v - s) / 4096 == (v - s2) / 4096 + 1) by {
                    vstd::arithmetic::div_mod::lemma_fundamental_div_mod((v - s2) as int, 4096);
                    vstd::arithmetic::div_mod::lemma_fundamental_div_mod_converse((v - s) as int, 4096,
                        (v - s2) as int / 4096 + 1, (v - s2) as int % 4096);
                }
                assert(fresh_page(p1, (v - s2) / 4096) == fresh_page(pool, (v - s) / 4096));
                let pv = fresh_page(pool, (v - s) / 4096);
                assert(!p1.is_page(pv));
                assert(!pool.is_page(pv));
            }
        }
    } else {
        assert(spec_walk_table(m, p1, 12, t3, s2, end, idx + 1) == (Ok::<(), KernelError>(()), p1));
        assert(pool1 == p1);
        assert(end - s == 4096);
        assert forall|v: u64| s <= v < end && v % 4096 == 0 implies {
            let pa_v = fresh_page(pool, (v - s) / 4096);
            &&& #[trigger] pool1.word(t3, spec_table_index(12, v)) == page_descriptor(pa_v, existing_flags(access))
            &&& pool1.is_page(pa_v)
            &&& !pool.is_page(pa_v)
            &&& forall|i: int| 0 <= i < PAGE_WORDS ==> #[trigger] pool1.word(pa_v, i) == 0
        } by {
            assert(v == s);
            assert(pa != t3);
            assert forall|i: int| 0 <= i < PAGE_WORDS implies #[trigger] pool1.word(pa, i) == 0 by {
                assert(p1.word(pa, i) == p0.word(pa, i));
            }
        }
        assert forall|t: u64, i: int| t != t3 && pool.is_page(t) && 0 <= i < PAGE_WORDS implies
            #[trigger] pool1.word(t, i) == pool.word(t, i) by {
            assert(p0.is_page(t));
        }
    }
}

/// The page that the allocation for the page at `v` gave, when mapping the pages from `s` to
/// `end` (allocated last, one after the other) left the pool `pool1`.
pub open spec fn leaf_page(pool1: PagePoolView, s: u64, end: u64, v: u64) -> u64 {
    ((pool1.num_pages() - (end - s) / 4096 + (v - s) / 4096 + 1) * PAGE_SIZE) as u64
}

/// Mapping fresh pages to the addresses from `s` to `end`, all in one 2 MiB block and unmapped
/// before, from `table` at level `bits`, making the tables that are missing: every word of an
/// earlier page off the walk's tables stays, and each page's walk then ends at a descriptor
/// holding the page that its own allocation gave, a page of zeroes not in the pool before.
proof fn lemma_map_paged_alloc_level(pool: PagePoolView, pool1: PagePoolView, bits: usize, table: u64, s: u64,
    end: u64, access: MemoryPermissions)
    requires
        pool.wf(),
        valid_level(bits),
        s % 4096 == 0,
        s < end <= MAX_RANGE_END,
        (end - s) % 4096 == 0,
        ((end - 1) as u64) >> 21 == s >> 21,
        path_ready(pool, bits, table, s),
        path_unmapped(pool, bits, table, s, end),
        spec_walk_table(paged_mapper(access), pool, bits, table, s, end, spec_table_index(bits, s)).0 is Ok,
        spec_walk_table(paged_mapper(access), pool, bits, table, s, end, spec_table_index(bits, s)).1 == pool1,
    ensures
        pool1.wf(),
        pool1.num_pages() >= pool.num_pages() + (end - s) / 4096,
        forall|t: u64, i: int| pool.is_page(t) && !chain_tables(pool, bits, table, s).contains(t) && 0 <= i < PAGE_WORDS
            ==> #[trigger] pool1.word(t, i) == pool.word(t, i),
        forall|v: u64| s <= v < end && v % 4096 == 0 ==> (#[trigger] spec_lookup_level(pool1, bits, table, v)
            matches Ok((t3, ix, g)) && ix == spec_table_index(12, v) && g == PAGE_SIZE as u64
            && pool1.word(t3, ix) == page_descriptor(leaf_page(pool1, s, end, v), existing_flags(access))),
        forall|v: u64| s <= v < end && v % 4096 == 0 ==> {
            &&& pool1.is_page(#[trigger] leaf_page(pool1, s, end, v))
            &&& !pool.is_page(leaf_page(pool1, s, end, v))
            &&& forall|i: int| 0 <= i < PAGE_WORDS ==> #[trigger] pool1.word(leaf_page(pool1, s, end, v), i) == 0
        },
    decreases bits,
{
    let m = paged_mapper(access);
    let w = (end - 1) as u64;
    lemma_existing_flags(access);
    lemma_descriptor_bits(0, 0);
    if bits == 12 {
        lemma_map_paged_leaves(pool, pool1, table, s, end, access);
        assert forall|v: u64| s <= v < end && v % 4096 == 0 implies (#[trigger] spec_lookup_level(pool1, bits, table, v)
            matches Ok((t3, ix, g)) && ix == spec_table_index(12, v) && g == PAGE_SIZE as u64
            && pool1.word(t3, ix) == page_descriptor(leaf_page(pool1, s, end, v), existing_flags(access))) by {
            let pa = fresh_page(pool, (v - s) / 4096);
            assert(pa == leaf_page(pool1, s, end, v));
            lemma_descriptor_bits(pa, existing_flags(access));
            assert(pool1.word(table, spec_table_index(12, v)) == page_descriptor(pa, existing_flags(access)));
            assert(pool1.is_page(table));
        }
        assert forall|v: u64| s <= v < end && v % 4096 == 0 implies {
            &&& pool1.is_page(#[trigger] leaf_page(pool1, s, end, v))
            &&& !pool.is_page(leaf_page(pool1, s, end, v))
            &&& forall|i: int| 0 <= i < PAGE_WORDS ==> #[trigger] pool1.word(leaf_page(pool1, s, end, v), i) == 0
        } by {
            assert(fresh_page(pool, (v - s) / 4096) == leaf_page(pool1, s, end, v));
            assert(pool1.word(table, spec_table_index(12, v)) == page_descriptor(fresh_page(pool, (v - s) / 4096),
                existing_flags(access)));
        }
    } else {
        let i = spec_table_index(bits, s);
        let g = spec_granule(bits);
        let d = pool.word(table, i);
        let lower = (bits - 9) as usize;
        super::mmu::lemma_level_facts(bits, s);
        lemma_page_addr_bound(pool, table);
        lemma_page_range_bits(s, s, w);
        let s2 = (s + g) as u64;
        assert(s2 >= end);
        if spec_is_table(bits, d) && pool.is_page(d & TT_TABLE_MASK) {
            let sub = d & TT_TABLE_MASK;
            assert(!spec_is_block(bits, d));
            let inner = spec_walk_table(m, pool, lower, sub, s, end, spec_table_index(lower, s));
            assert(inner.0 is Ok);
            lemma_map_paged_alloc_level(pool, inner.1, lower, sub, s, end, access);
            let q1 = inner.1;
            assert(spec_visit_table_after(m, q1, table, i) == (Ok::<(), KernelError>(()), q1));
            assert(spec_walk_table(m, q1, bits, table, s2, end, i + 1) == (Ok::<(), KernelError>(()), q1));
            assert(pool1 == q1);
            assert(pool1.word(table, i) == d);
            assert forall|v: u64| s <= v < end && v % 4096 == 0 implies (#[trigger] spec_lookup_level(pool1, bits, table, v)
                matches Ok((t3, ix, g)) && ix == spec_table_index(12, v) && g == PAGE_SIZE as u64
                && pool1.word(t3, ix) == page_descriptor(leaf_page(pool1, s, end, v), existing_flags(access))) by {
                lemma_page_range_bits(s, v, w);
                assert(spec_table_index(bits, v) == i);
                assert(pool1.is_page(table));
                assert(spec_lookup_level(pool1, bits, table, v) == spec_lookup_level(pool1, lower, sub, v));
            }
        } else {
            assert(spec_is_empty(d));
            assert(pool.num_pages() < crate::mm::pages::MAX_PAGES) by {
                if pool.num_pages() >= crate::mm::pages::MAX_PAGES {
                    assert(spec_visit_empty(m, pool, bits, table, i, s, end).0 is Err);
                }
            }
            let next = pool.next_page_addr();
            let p0 = pool.push_zeroed();
            let td = (next & TT_TABLE_MASK) | 3;
            let p1 = p0.set_word(table, i, td);
            lemma_descriptor_bits(next, 0);
            assert(next % 4096 == 0 && next < 0x1_0000_0000_0000u64);
            assert(td & TT_TABLE_MASK == next);
            assert(p0.wf() && p0.is_page(next) && !pool.is_page(next) && p0.is_page(table));
            assert forall|t: u64, j: int| pool.is_page(t) && 0 <= j < PAGE_WORDS implies #[trigger] p0.word(t, j) == pool.word(t, j) by {
                lemma_page_addr_bound(pool, t);
            }
            assert(next != table);
            assert forall|j: int| 0 <= j < PAGE_WORDS implies #[trigger] p1.word(next, j) == 0 by {
                lemma_page_addr_bound(p0, next);
                assert(PagePoolView::page_index(next) == pool.num_pages());
                lemma_word_pos_apart(p0, next, j, table, i);
            }
            assert forall|t: u64, j: int| p0.is_page(t) && !(t == table && j == i) && 0 <= j < PAGE_WORDS implies
                #[trigger] p1.word(t, j) == p0.word(t, j) by {
                if t != table {
                    lemma_word_pos_apart(p0, t, j, table, i);
                }
            }
            assert(p1.wf());
            lemma_fresh_table_ready(p1, lower, next, s, end);
            super::mmu::lemma_level_facts(lower, s);
            assert(spec_visit_empty(m, pool, bits, table, i, s, end)
                == spec_walk_table(m, p1, lower, next, s, end, spec_table_index(lower, s)));
            let inner = spec_walk_table(m, p1, lower, next, s, end, spec_table_index(lower, s));
            assert(inner.0 is Ok);
            lemma_map_paged_alloc_level(p1, inner.1, lower, next, s, end, access);
            let q1 = inner.1;
            assert(spec_walk_table(m, q1, bits, table, s2, end, i + 1) == (Ok::<(), KernelError>(()), q1));
            assert(pool1 == q1);
            assert(chain_tables(pool, bits, table, s) == set![table]);
            assert(pool1.word(table, i) == td);
            assert forall|t: u64, j: int| pool.is_page(t) && !chain_tables(pool, bits, table, s).contains(t)
                && 0 <= j < PAGE_WORDS implies #[trigger] pool1.word(t, j) == pool.word(t, j) by {
                assert(t != next);
                assert(pool1.word(t, j) == p1.word(t, j));
                assert(p1.word(t, j) == p0.word(t, j));
            }
            assert forall|v: u64| s <= v < end && v % 4096 == 0 implies (#[trigger] spec_lookup_level(pool1, bits, table, v)
                matches Ok((t3, ix, g)) && ix == spec_table_index(12, v) && g == PAGE_SIZE as u64
                && pool1.word(t3, ix) == page_descriptor(leaf_page(pool1, s, end, v), existing_flags(access))) by {
                lemma_page_range_bits(s, v, w);
                assert(spec_table_index(bits, v) == i);
                assert(pool1.is_page(table));
                assert(!spec_is_block(bits, td));
                assert(spec_lookup_level(pool1, bits, table, v) == spec_lookup_level(pool1, lower, next, v));
            }
            assert forall|v: u64| s <= v < end && v % 4096 == 0 implies {
                &&& pool1.is_page(#[trigger] leaf_page(pool1, s, end, v))
                &&& !pool.is_page(leaf_page(pool1, s, end, v))
                &&& forall|i: int| 0 <= i < PAGE_WORDS ==> #[trigger] pool1.word(leaf_page(pool1, s, end, v), i) == 0
            } by {
                assert(!p1.is_page(leaf_page(pool1, s, end, v)));
            }
        }
    }
}

/// Mapping fresh pages over a range of whole pages that lies in one 2 MiB block, none of them
/// mapped before: where the walk for the range goes through tables of the pool (each none of
/// the tables below it) until it meets an empty descriptor, from which the tables are made,
/// when `map_paged_range` with allocated memory succeeds each address `v` of the range
/// translates into the page that the allocation for its page gave: a page of zeroes that the
/// pool did not hold before, the pages of different pages of the range being different.
pub proof fn lemma_map_paged_translates(pool: PagePoolView, pool1: PagePoolView, root: u64, start: u64, len: usize,
    access: MemoryPermissions, v: u64, v2: u64)
    requires
        pool.wf(),
        start % (PAGE_SIZE as u64) == 0,
        len > 0,
        len % PAGE_SIZE == 0,
        start + len <= MAX_RANGE_END,
        ((start + len - 1) as u64) >> 21 == start >> 21,
        path_ready(pool, TL0_ADDR_BITS, root, start),
        path_unmapped(pool, TL0_ADDR_BITS, root, start, (start + len) as u64),
        spec_walk_table(paged_mapper(access), pool, TL0_ADDR_BITS, root, start, (start + len) as u64,
            spec_table_index(TL0_ADDR_BITS, start)) == (Ok::<(), KernelError>(()), pool1),
        start <= v < start + len,
        start <= v2 < start + len,
    ensures
        ({
            let end = (start + len) as u64;
            let a = (v - v % (PAGE_SIZE as u64)) as u64;
            let a2 = (v2 - v2 % (PAGE_SIZE as u64)) as u64;
            let pa = leaf_page(pool1, start, end, a);
            &&& spec_translate(pool1, root, v) == Ok::<u64, KernelError>((pa + v % (PAGE_SIZE as u64)) as u64)
            &&& pool1.is_page(pa)
            &&& !pool.is_page(pa)
            &&& forall|i: int| 0 <= i < PAGE_WORDS ==> #[trigger] pool1.word(pa, i) == 0
            &&& a != a2 ==> pa != leaf_page(pool1, start, end, a2)
        }),
{
    let end = (start + len) as u64;
    lemma_map_paged_alloc_level(pool, pool1, TL0_ADDR_BITS, root, start, end, access);
    let a = (v - v % (PAGE_SIZE as u64)) as u64;
    let a2 = (v2 - v2 % (PAGE_SIZE as u64)) as u64;
    lemma_page_start(start, v, len);
    lemma_page_start(start, v2, len);
    let pa = leaf_page(pool1, start, end, a);
    assert(pool1.is_page(pa));
    assert(spec_lookup_level(pool1, TL0_ADDR_BITS, root, a) matches Ok((t3, ix, g)) && ix == spec_table_index(12, a)
        && g == PAGE_SIZE as u64 && pool1.word(t3, ix) == page_descriptor(pa, existing_flags(access)));
    lemma_page_addr_bound(pool1, pa);
    assert(pa % 4096 == 0 && pa < 0x1_0000_0000_0000u64);
    lemma_existing_flags(access);
    lemma_descriptor_bits(pa, existing_flags(access));
    assert(v % 4096 == v - a);
    if a != a2 {
        assert((a - start) / 4096 != (a2 - start) / 4096) by {
            vstd::arithmetic::div_mod::lemma_fundamental_div_mod((a - start) as int, 4096);
            vstd::arithmetic::div_mod::lemma_fundamental_div_mod((a2 - start) as int, 4096);
        }
        assert(pool1.is_page(leaf_page(pool1, start, end, a2)));
        lemma_page_addr_bound(pool1, leaf_page(pool1, start, end, a2));
    }
}

/// The start of the page of an address of a range of whole pages lies in the range, at a whole
/// number of pages from its start.
proof fn lemma_page_start(start: u64, v: u64, len: usize)
    requires
        start % 4096 == 0,
        start <= v < start + len,
    ensures
        ({
            let a = (v - v % 4096) as u64;
            &&& a % 4096 == 0
            &&& start <= a <= v
            &&& v - a < 4096
            &&& (a - start) % 4096 == 0
        }),
{
    let a = (v - v % 4096) as u64;
    vstd::arithmetic::div_mod::lemma_fundamental_div_mod(v as int, 4096);
    vstd::arithmetic::div_mod::lemma_mod_bound(v as int, 4096);
    vstd::arithmetic::div_mod::lemma_fundamental_div_mod(start as int, 4096);
    vstd::arithmetic::div_mod::lemma_mod_multiples_basic(v as int / 4096, 4096);
    assert(a == 4096 * (v as int / 4096));
    assert(start == 4096 * (start as int / 4096));
    if a < start {
        assert(v as int / 4096 < start as int / 4096) by (nonlinear_arith)
            requires 4096 * (v as int / 4096) < 4096 * (start as int / 4096);
        assert(4096 * (v as int / 4096) + 4096 <= 4096 * (start as int / 4096)) by (nonlinear_arith)
            requires v as int / 4096 + 1 <= start as int / 4096;
    }
    assert(a - start == 4096 * (v as int / 4096 - start as int / 4096)) by (nonlinear_arith)
        requires a == 4096 * (v as int / 4096), start == 4096 * (start as int / 4096);
    vstd::arithmetic::div_mod::lemma_mod_multiples_basic(v as int / 4096 - start as int / 4096, 4096);
}

/// The tables that the walk for `v` from `table` at level `bits` goes through, as far as they
/// exist: `table` and the tables below it that its descriptors point to.
pub open spec fn chain_tables(pool: PagePoolView, bits: usize, table: u64, v: u64) -> Set<u64>
    decreases bits,
{
    if bits <= 12 {
        set![table]
    } else {
        let d = pool.word(table, spec_table_index(bits, v));
        if spec_is_table(bits, d) && pool.is_page(d & TT_TABLE_MASK) {
            chain_tables(pool, (bits - 9) as usize, d & TT_TABLE_MASK, v).insert(table)
        } else {
            set![table]
        }
    }
}

/// The walk for `v` from `table` at level `bits` goes through tables of the pool, each none of
/// the tables below it, until it meets an empty descriptor or the last level.
pub open spec fn path_ready(pool: PagePoolView, bits: usize, table: u64, v: u64) -> bool
    decreases bits,
{
    &&& pool.is_page(table)
    &&& bits > 12 ==> {
        let d = pool.word(table, spec_table_index(bits, v));
        let sub = d & TT_TABLE_MASK;
        ||| spec_is_empty(d)
        ||| (spec_is_table(bits, d) && pool.is_page(sub)
            && !chain_tables(pool, (bits - 9) as usize, sub, v).contains(table)
            && path_ready(pool, (bits - 9) as usize, sub, v))
    }
}

/// No page from `s` to `end` is mapped below `table` at level `bits`: where the walk reaches a
/// last-level table, its descriptors for those pages are empty.
pub open spec fn path_unmapped(pool: PagePoolView, bits: usize, table: u64, s: u64, end: u64) -> bool
    decreases bits,
{
    if bits <= 12 {
        forall|v: u64| s <= v < end && v % 4096 == 0 ==> #[trigger] pool.word(table, spec_table_index(12, v)) == 0
    } else {
        let d = pool.word(table, spec_table_index(bits, s));
        spec_is_table(bits, d) ==> path_unmapped(pool, (bits - 9) as usize, d & TT_TABLE_MASK, s, end)
    }
}

/// A fresh page of zeroes is ready for any walk from it and maps nothing.
proof fn lemma_fresh_table_ready(pool: PagePoolView, bits: usize, t: u64, s: u64, end: u64)
    requires
        pool.wf(),
        valid_level(bits),
        pool.is_page(t),
        forall|i: int| 0 <= i < PAGE_WORDS ==> #[trigger] pool.word(t, i) == 0,
    ensures
        path_ready(pool, bits, t, s),
        path_unmapped(pool, bits, t, s, end),
        chain_tables(pool, bits, t, s) == set![t],
{
    lemma_descriptor_bits(0, 0);
    super::mmu::lemma_level_facts(bits, s);
    if bits <= 12 {
        assert forall|v: u64| s <= v < end && v % 4096 == 0 implies #[trigger] pool.word(t, spec_table_index(12, v)) == 0 by {
            super::mmu::lemma_level_facts(12, v);
        }
    }
}

/// Mapping existing memory to the pages from `s` to `end`, all in one 2 MiB block and unmapped
/// before, from `table` at level `bits`, making the tables that are missing: every word of an
/// earlier page off the walk's tables stays, and each page's walk then ends at a descriptor that
/// maps it to its place in the memory.
proof fn lemma_map_alloc_level(pool: PagePoolView, pool1: PagePoolView, bits: usize, table: u64, s: u64, end: u64,
    access: MemoryPermissions, start: u64, paddr: u64)
    requires
        pool.wf(),
        valid_level(bits),
        s % 4096 == 0,
        start <= s < end <= MAX_RANGE_END,
        ((end - 1) as u64) >> 21 == s >> 21,
        paddr + (end - start) <= u64::MAX,
        path_ready(pool, bits, table, s),
        path_unmapped(pool, bits, table, s, end),
        spec_walk_table(existing_mapper(access, start, paddr), pool, bits, table, s, end, spec_table_index(bits, s)).0 is Ok,
        spec_walk_table(existing_mapper(access, start, paddr), pool, bits, table, s, end, spec_table_index(bits, s)).1 == pool1,
    ensures
        pool1.wf(),
        pool1.num_pages() >= pool.num_pages(),
        forall|t: u64, i: int| pool.is_page(t) && !chain_tables(pool, bits, table, s).contains(t) && 0 <= i < PAGE_WORDS
            ==> #[trigger] pool1.word(t, i) == pool.word(t, i),
        forall|v: u64| s <= v < end && v % 4096 == 0 ==> (#[trigger] spec_lookup_level(pool1, bits, table, v)
            matches Ok((t3, ix, g)) && ix == spec_table_index(12, v) && g == PAGE_SIZE as u64
            && pool1.word(t3, ix) == page_descriptor((paddr + (v - start)) as u64, existing_flags(access))),
    decreases bits,
{
    let m = existing_mapper(access, start, paddr);
    let w = (end - 1) as u64;
    lemma_existing_flags(access);
    lemma_descriptor_bits(0, 0);
    if bits == 12 {
        lemma_map_leaves(pool, pool1, table, s, end, access, start, paddr);
        assert forall|v: u64| s <= v < end && v % 4096 == 0 implies (#[trigger] spec_lookup_level(pool1, bits, table, v)
            matches Ok((t3, ix, g)) && ix == spec_table_index(12, v) && g == PAGE_SIZE as u64
            && pool1.word(t3, ix) == page_descriptor((paddr + (v - start)) as u64, existing_flags(access))) by {
            let pa = (paddr + (v - start)) as u64;
            lemma_descriptor_bits(pa, existing_flags(access));
            assert(pool1.word(table, spec_table_index(12, v)) == page_descriptor(pa, existing_flags(access)));
            assert(pool1.is_page(table));
            assert(spec_is_block(12, pool1.word(table, spec_table_index(12, v))));
        }
    } else {
        let i = spec_table_index(bits, s);
        let g = spec_granule(bits);
        let d = pool.word(table, i);
        let lower = (bits - 9) as usize;
        super::mmu::lemma_level_facts(bits, s);
        lemma_page_addr_bound(pool, table);
        lemma_page_range_bits(s, s, w);
        let s2 = (s + g) as u64;
        assert(s2 >= end);
        if spec_is_table(bits, d) && pool.is_page(d & TT_TABLE_MASK) {
            let sub = d & TT_TABLE_MASK;
            assert(!spec_is_block(bits, d));
            let inner = spec_walk_table(m, pool, lower, sub, s, end, spec_table_index(lower, s));
            assert(inner.0 is Ok);
            lemma_map_alloc_level(pool, inner.1, lower, sub, s, end, access, start, paddr);
            let q1 = inner.1;
            assert(spec_visit_table_after(m, q1, table, i) == (Ok::<(), KernelError>(()), q1));
            assert(spec_walk_table(m, q1, bits, table, s2, end, i + 1) == (Ok::<(), KernelError>(()), q1));
            assert(pool1 == q1);
            assert(pool1.word(table, i) == d);
            assert forall|v: u64| s <= v < end && v % 4096 == 0 implies (#[trigger] spec_lookup_level(pool1, bits, table, v)
            matches Ok((t3, ix, g)) && ix == spec_table_index(12, v) && g == PAGE_SIZE as u64
            && pool1.word(t3, ix) == page_descriptor((paddr + (v - start)) as u64, existing_flags(access))) by {
                lemma_page_range_bits(s, v, w);
                assert(spec_table_index(bits, v) == i);
                assert(pool1.is_page(table));
                assert(spec_lookup_level(pool1, bits, table, v) == spec_lookup_level(pool1, lower, sub, v));
            }
        } else {
            assert(spec_is_empty(d));
            assert(pool.num_pages() < crate::mm::pages::MAX_PAGES) by {
                if pool.num_pages() >= crate::mm::pages::MAX_PAGES {
                    assert(spec_visit_empty(m, pool, bits, table, i, s, end).0 is Err);
                }
            }
            let next = pool.next_page_addr();
            let p0 = pool.push_zeroed();
            let td = (next & TT_TABLE_MASK) | 3;
            let p1 = p0.set_word(table, i, td);
            lemma_descriptor_bits(next, 0);
            assert(next % 4096 == 0 && next < 0x1_0000_0000_0000u64);
            assert(td & TT_TABLE_MASK == next);
            assert(p0.wf() && p0.is_page(next) && !pool.is_page(next) && p0.is_page(table));
            assert forall|t: u64, j: int| pool.is_page(t) && 0 <= j < PAGE_WORDS implies #[trigger] p0.word(t, j) == pool.word(t, j) by {
                lemma_page_addr_bound(pool, t);
            }
            assert(next != table);
            assert forall|j: int| 0 <= j < PAGE_WORDS implies #[trigger] p1.word(next, j) == 0 by {
                lemma_page_addr_bound(p0, next);
                assert(PagePoolView::page_index(next) == pool.num_pages());
                lemma_word_pos_apart(p0, next, j, table, i);
            }
            assert forall|t: u64, j: int| p0.is_page(t) && !(t == table && j == i) && 0 <= j < PAGE_WORDS implies
                #[trigger] p1.word(t, j) == p0.word(t, j) by {
                if t != table {
                    lemma_word_pos_apart(p0, t, j, table, i);
                }
            }
            assert(p1.wf());
            lemma_fresh_table_ready(p1, lower, next, s, end);
            super::mmu::lemma_level_facts(lower, s);
            assert(spec_visit_empty(m, pool, bits, table, i, s, end)
                == spec_walk_table(m, p1, lower, next, s, end, spec_table_index(lower, s)));
            let inner = spec_walk_table(m, p1, lower, next, s, end, spec_table_index(lower, s));
            assert(inner.0 is Ok);
            lemma_map_alloc_level(p1, inner.1, lower, next, s, end, access, start, paddr);
            let q1 = inner.1;
            assert(spec_walk_table(m, q1, bits, table, s2, end, i + 1) == (Ok::<(), KernelError>(()), q1));
            assert(pool1 == q1);
            assert(chain_tables(pool, bits, table, s) == set![table]);
            assert(pool1.word(table, i) == td);
            assert forall|t: u64, j: int| pool.is_page(t) && !chain_tables(pool, bits, table, s).contains(t)
                && 0 <= j < PAGE_WORDS implies #[trigger] pool1.word(t, j) == pool.word(t, j) by {
                assert(t != next);
                assert(pool1.word(t, j) == p1.word(t, j));
                assert(p1.word(t, j) == p0.word(t, j));
            }
            assert forall|v: u64| s <= v < end && v % 4096 == 0 implies (#[trigger] spec_lookup_level(pool1, bits, table, v)
            matches Ok((t3, ix, g)) && ix == spec_table_index(12, v) && g == PAGE_SIZE as u64
            && pool1.word(t3, ix) == page_descriptor((paddr + (v - start)) as u64, existing_flags(access))) by {
                lemma_page_range_bits(s, v, w);
                assert(spec_table_index(bits, v) == i);
                assert(pool1.is_page(table));
                assert(!spec_is_block(bits, td));
                assert(spec_lookup_level(pool1, bits, table, v) == spec_lookup_level(pool1, lower, next, v));
            }
        }
    }
}

} // verus!
