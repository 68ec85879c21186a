use vstd::prelude::*;

use crate::errors::KernelError;
use crate::mm::pages::{PagePoolView, PAGE_SIZE, PAGE_WORDS, lemma_page_addr_bound};
use super::mmu::{TableVisitor, UnmapRange, MAX_RANGE_END, TL0_ADDR_BITS, TT_TABLE_MASK, spec_walk_table,
    spec_lookup_level, spec_translate, spec_table_index, spec_granule, spec_is_block, spec_is_table, spec_is_empty, spec_visit_empty, spec_visit_table_after, valid_level};

verus! {

/// `after` is `before` with some words set to zero and reference counts changed: the same
/// pages, each word as it was or zero.
pub open spec fn zeroed_from(before: PagePoolView, after: PagePoolView) -> bool {
    &&& after.refs.len() == before.refs.len()
    &&& after.words.len() == before.words.len()
    &&& forall|k: int| 0 <= k < before.words.len() ==> #[trigger] after.words[k] == before.words[k] || after.words[k] == 0
}

/// The facts about the bits of page addresses in one 2 MiB block that the proofs need.
pub(crate) proof fn lemma_page_range_bits(s: u64, v: u64, w: u64)
    ensures
        0u64 & 3 == 0,
        0u64 & 0x0000_ffff_ffff_f000u64 == 0,
        s >> 21 == v >> 21 ==> ((s >> 39u64) & 0x1ff == (v >> 39u64) & 0x1ff
            && (s >> 30u64) & 0x1ff == (v >> 30u64) & 0x1ff && (s >> 21u64) & 0x1ff == (v >> 21u64) & 0x1ff),
        (s % 4096 == 0 && s < 0xffff_ff00_0000_0000u64 && ((s + 4096) as u64) >> 21 == s >> 21)
            ==> (((s + 4096) as u64) >> 12u64) & 0x1ff == ((s >> 12u64) & 0x1ff) + 1,
        (s <= v && v <= w && s >> 21 == w >> 21) ==> v >> 21 == s >> 21,
        (s < 0xffff_ff00_0000_0000u64 && w >> 21 == s >> 21) ==> w < s + 0x20_0000,
        (s <= v && s >> 21 == v >> 21) ==> (s >> 12u64) & 0x1ff <= (v >> 12u64) & 0x1ff,
{
    assert(0u64 & 3 == 0 && 0u64 & 0x0000_ffff_ffff_f000u64 == 0
        && (s >> 21 == v >> 21 ==> ((s >> 39u64) & 0x1ff == (v >> 39u64) & 0x1ff
            && (s >> 30u64) & 0x1ff == (v >> 30u64) & 0x1ff && (s >> 21u64) & 0x1ff == (v >> 21u64) & 0x1ff))
        && ((s % 4096 == 0 && s < 0xffff_ff00_0000_0000u64 && ((s + 4096) as u64) >> 21 == s >> 21)
            ==> (((s + 4096) as u64) >> 12u64) & 0x1ff == ((s >> 12u64) & 0x1ff) + 1)
        && ((s <= v && v <= w && s >> 21 == w >> 21) ==> v >> 21 == s >> 21)
        && ((s < 0xffff_ff00_0000_0000u64 && w >> 21 == s >> 21) ==> w < s + 0x20_0000)
        && ((s <= v && s >> 21 == v >> 21) ==> (s >> 12u64) & 0x1ff <= (v >> 12u64) & 0x1ff)) by (bit_vector);
}

/// A walk that failed still fails once words on its way were set to zero.
proof fn lemma_lookup_err_after_zeroing(p: PagePoolView, q: PagePoolView, bits: usize, table: u64, v: u64)
    requires
        p.wf(),
        zeroed_from(p, q),
        valid_level(bits),
        spec_lookup_level(p, bits, table, v) is Err,
    ensures
        spec_lookup_level(q, bits, table, v) is Err,
    decreases bits,
{
    if p.is_page(table) {
        lemma_page_addr_bound(p, table);
        let index = spec_table_index(bits, v);
        super::mmu::lemma_level_facts(bits, v);
        let pos = PagePoolView::word_pos(table, index);
        assert(q.words[pos] == p.words[pos] || q.words[pos] == 0);
        lemma_page_range_bits(0, 0, 0);
        let d = p.word(table, index);
        assert(q.is_page(table));
        if q.word(table, index) == d {
            if !spec_is_block(bits, d) && bits > 12 {
                lemma_lookup_err_after_zeroing(p, q, (bits - 9) as usize, d & TT_TABLE_MASK, v);
            }
        } else {
            assert(q.word(table, index) == 0);
            assert(!spec_is_block(bits, 0));
            if bits > 12 {
                assert(!q.is_page(0u64 & TT_TABLE_MASK));
                assert(spec_lookup_level(q, (bits - 9) as usize, 0u64 & TT_TABLE_MASK, v) is Err);
            }
        }
    }
}

/// Unmapping pages from `s` to `end` in a last-level table sets their descriptors to zero
/// and sets no other word to anything but zero.
proof fn lemma_unmap_leaves(pool: PagePoolView, pool1: PagePoolView, t: u64, s: u64, end: u64)
    requires
        pool.wf(),
        pool.is_page(t),
        s % 4096 == 0,
        s < end <= MAX_RANGE_END,
        ((end - 1) as u64) >> 21 == s >> 21,
        spec_walk_table(TableVisitor::Unmapper(UnmapRange {}), pool, 12, t, s, end, spec_table_index(12, s)).0 is Ok,
        spec_walk_table(TableVisitor::Unmapper(UnmapRange {}), pool, 12, t, s, end, spec_table_index(12, s)).1 == pool1,
    ensures
        zeroed_from(pool, pool1),
        pool1.wf(),
        forall|v: u64| s <= v < end && v % 4096 == 0 ==> #[trigger] pool1.word(t, spec_table_index(12, v)) == 0,
    decreases end - s,
{
    let idx = spec_table_index(12, s);
    super::mmu::lemma_level_facts(12, s);
    lemma_page_addr_bound(pool, t);
    let d = pool.word(t, idx);
    let paddr = d & 0x0000_ffff_ffff_f000u64;
    let p0 = if paddr != 0 { pool.drop_ref(paddr) } else { pool };
    let p1 = p0.set_word(t, idx, 0);
    let u = TableVisitor::Unmapper(UnmapRange {});
    assert(spec_walk_table(u, pool, 12, t, s, end, idx).0 is Ok);
    assert(!spec_is_table(12, d));
    if !spec_is_block(12, d) {
        if spec_is_empty(d) {
            assert(spec_visit_empty(u, pool, 12, t, idx, s, end).0 is Err);
        }
        assert(spec_walk_table(u, pool, 12, t, s, end, idx).0 is Err);
    }
    assert(spec_is_block(12, d));
    assert(zeroed_from(pool, p1));
    assert(p1.word(t, idx) == 0);
    let s2 = (s + 4096) as u64;
    if s2 < end {
        lemma_page_range_bits(s, s2, (end - 1) as u64);
        lemma_page_range_bits(s2, s2, (end - 1) as u64);
        assert(spec_table_index(12, s2) == idx + 1);
        lemma_unmap_leaves(p1, pool1, t, s2, end);
        assert forall|v: u64| s <= v < end && v % 4096 == 0 implies #[trigger] pool1.word(t, spec_table_index(12, v)) == 0 by {
            if v < s2 {
                assert(v == s);
                let pos = PagePoolView::word_pos(t, idx);
                assert(pool1.words[pos] == p1.words[pos] || pool1.words[pos] == 0);
            }
        }
    } else {
        assert(spec_walk_table(u, p1, 12, t, s2, end, idx + 1) == (Ok::<(), KernelError>(()), p1));
        assert(pool1 == p1);
        assert forall|v: u64| s <= v < end && v % 4096 == 0 implies #[trigger] pool1.word(t, spec_table_index(12, v)) == 0 by {
            assert(v == s);
        }
    }
}

/// Setting words to zero twice is setting words to zero.
proof fn lemma_zeroed_trans(a: PagePoolView, b: PagePoolView, c: PagePoolView)
    requires
        zeroed_from(a, b),
        zeroed_from(b, c),
    ensures
        zeroed_from(a, c),
{
    assert forall|k: int| 0 <= k < a.words.len() implies #[trigger] c.words[k] == a.words[k] || c.words[k] == 0 by {
        assert(b.words[k] == a.words[k] || b.words[k] == 0);
        assert(c.words[k] == b.words[k] || c.words[k] == 0);
    }
}

/// Unmapping pages from `s` to `end`, all in one 2 MiB block, through a table of level `bits`
/// leaves no page of the range with a translation through that table, and sets no word to
/// anything but zero.
proof fn lemma_unmap_level(pool: PagePoolView, pool1: PagePoolView, bits: usize, table: u64, s: u64, end: u64)
    requires
        pool.wf(),
        pool.is_page(table),
        valid_level(bits),
        s % 4096 == 0,
        s < end <= MAX_RANGE_END,
        ((end - 1) as u64) >> 21 == s >> 21,
        spec_walk_table(TableVisitor::Unmapper(UnmapRange {}), pool, bits, table, s, end, spec_table_index(bits, s)).0 is Ok,
        spec_walk_table(TableVisitor::Unmapper(UnmapRange {}), pool, bits, table, s, end, spec_table_index(bits, s)).1
            == pool1,
    ensures
        zeroed_from(pool, pool1),
        pool1.wf(),
        forall|v: u64| s <= v < end && v % 4096 == 0 ==> #[trigger] spec_lookup_level(pool1, bits, table, v) is Err,
    decreases bits,
{
    let u = TableVisitor::Unmapper(UnmapRange {});
    let i = spec_table_index(bits, s);
    let w = (end - 1) as u64;
    super::mmu::lemma_level_facts(bits, s);
    lemma_page_addr_bound(pool, table);
    lemma_page_range_bits(0, 0, 0);
    if bits == 12 {
        lemma_unmap_leaves(pool, pool1, table, s, end);
        assert forall|v: u64| s <= v < end && v % 4096 == 0 implies #[trigger] spec_lookup_level(pool1, bits, table, v) is Err by {
            assert(pool1.word(table, spec_table_index(12, v)) == 0);
            assert(pool1.is_page(table));
        }
    } else {
        let g = spec_granule(bits);
        let d = pool.word(table, i);
        lemma_page_range_bits(s, s, w);
        let s2 = (s + g) as u64;
        assert(s2 >= end);
        if spec_is_block(bits, d) {
            let paddr = d & 0x0000_ffff_ffff_f000u64;
            let p0 = if paddr != 0 { pool.drop_ref(paddr) } else { pool };
            let p1 = p0.set_word(table, i, 0);
            assert(spec_walk_table(u, p1, bits, table, s2, end, i + 1) == (Ok::<(), KernelError>(()), p1));
            assert(pool1 == p1);
            assert forall|v: u64| s <= v < end && v % 4096 == 0 implies #[trigger] spec_lookup_level(pool1, bits, table, v) is Err by {
                lemma_page_range_bits(s, v, w);
                assert(spec_table_index(bits, v) == i);
                assert(pool1.word(table, i) == 0);
                assert(pool1.is_page(table));
                assert(!spec_is_block(bits, 0));
                assert(!pool1.is_page(0u64 & TT_TABLE_MASK));
                assert(spec_lookup_level(pool1, (bits - 9) as usize, 0u64 & TT_TABLE_MASK, v) is Err);
            }
        } else if spec_is_table(bits, d) {
            let sub = d & TT_TABLE_MASK;
            if pool.is_page(sub) {
                let lower = (bits - 9) as usize;
                let inner = spec_walk_table(u, pool, lower, sub, s, end, spec_table_index(lower, s));
                assert(inner.0 is Ok);
                lemma_unmap_level(pool, inner.1, lower, sub, s, end);
                let q1 = inner.1;
                let p1 = spec_visit_table_after(u, q1, table, i).1;
                assert(spec_walk_table(u, p1, bits, table, s2, end, i + 1) == (Ok::<(), KernelError>(()), p1));
                assert(pool1 == p1);
                assert(q1.is_page(table));
                lemma_page_addr_bound(q1, table);
                assert(zeroed_from(q1, p1));
                lemma_zeroed_trans(pool, q1, p1);
                let pos = PagePoolView::word_pos(table, i);
                assert(q1.words[pos] == pool.words[pos] || q1.words[pos] == 0);
                assert forall|v: u64| s <= v < end && v % 4096 == 0 implies #[trigger] spec_lookup_level(pool1, bits, table, v) is Err by {
                    lemma_page_range_bits(s, v, w);
                    assert(spec_table_index(bits, v) == i);
                    assert(pool1.is_page(table));
                    if pool1.word(table, i) == d {
                        assert(spec_lookup_level(q1, lower, sub, v) is Err);
                        lemma_lookup_err_after_zeroing(q1, pool1, lower, sub, v);
                        assert(!spec_is_block(bits, d));
                    } else {
                        assert(pool1.word(table, i) == 0);
                        assert(!spec_is_block(bits, 0));
                        assert(!pool1.is_page(0u64 & TT_TABLE_MASK));
                        assert(spec_lookup_level(pool1, lower, 0u64 & TT_TABLE_MASK, v) is Err);
                    }
                }
            } else {
                assert(spec_walk_table(u, pool, bits, table, s2, end, i + 1) == (Ok::<(), KernelError>(()), pool));
                assert(pool1 == pool);
                assert forall|v: u64| s <= v < end && v % 4096 == 0 implies #[trigger] spec_lookup_level(pool1, bits, table, v) is Err by {
                    lemma_page_range_bits(s, v, w);
                    assert(spec_table_index(bits, v) == i);
                    assert(!spec_is_block(bits, d));
                    assert(spec_lookup_level(pool1, (bits - 9) as usize, sub, v) is Err);
                }
            }
        } else {
            if spec_is_empty(d) {
                assert(spec_visit_empty(u, pool, bits, table, i, s, end).0 is Err);
            }
            assert(spec_walk_table(u, pool, bits, table, s, end, i).0 is Err);
        }
    }
}

/// Unmapping a range of whole pages that lies in one 2 MiB block: when `unmap_range`
/// succeeds, no address of the range translates any more.
pub proof fn lemma_unmap_range_unmaps(pool: PagePoolView, pool1: PagePoolView, root: u64, start: u64, len: usize, v: u64)
    requires
        pool.wf(),
        pool.is_page(root),
        start % (PAGE_SIZE as u64) == 0,
        len > 0,
        len % PAGE_SIZE == 0,
        start + len <= MAX_RANGE_END,
        ((start + len - 1) as u64) >> 21 == start >> 21,
        spec_walk_table((TableVisitor::Unmapper(UnmapRange {})), pool, TL0_ADDR_BITS, root, start, (start + len) as u64,
            spec_table_index(TL0_ADDR_BITS, start)) == (Ok::<(), KernelError>(()), pool1),
        start <= v < start + len,
    ensures
        spec_translate(pool1, root, v) is Err,
{
    lemma_unmap_level(pool, pool1, TL0_ADDR_BITS, root, start, (start + len) as u64);
    let a = (v - v % (PAGE_SIZE as u64)) as u64;
    assert(a % 4096 == 0 && start <= a < start + len) by {
        vstd::arithmetic::div_mod::lemma_fundamental_div_mod(v as int, 4096);
        vstd::arithmetic::div_mod::lemma_mod_bound(v as int, 4096);
        vstd::arithmetic::div_mod::lemma_fundamental_div_mod(start as int, 4096);
        vstd::arithmetic::div_mod::lemma_mod_multiples_basic(v as int / 4096, 4096);
        assert(a == 4096 * (v as int / 4096));
        assert(start == 4096 * (start as int / 4096));
        if a < start {
            assert(v as int / 4096 < start as int / 4096) by (nonlinear_arith)
                requires 4096 * (v as int / 4096) < 4096 * (start as int / 4096);
            assert(v as int / 4096 + 1 <= start as int / 4096);
            assert(v < 4096 * (v as int / 4096) + 4096);
            assert(4096 * (v as int / 4096) + 4096 <= 4096 * (start as int / 4096)) by (nonlinear_arith)
                requires v as int / 4096 + 1 <= start as int / 4096;
        }
    }
}

} // verus!
