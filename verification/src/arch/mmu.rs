use vstd::prelude::*;

use crate::errors::KernelError;
use crate::mm::{MemoryType, MemoryPermissions};
use crate::mm::pages::{PagePool, PagePoolView, PAGE_SIZE, PAGE_WORDS, lemma_page_addr_bound};
use super::types::{PhysicalAddress, VirtualAddress};

verus! {

pub const TT_DESCRIPTOR_EMPTY: u64 = 0b00;
pub const TT2_DESCRIPTOR_TABLE: u64 = 0b11;
pub const TT2_DESCRIPTOR_BLOCK: u64 = 0b01;
pub const TT3_DESCRIPTOR_BLOCK: u64 = 0b11;

pub const TT_ACCESS_FLAG: u64 = 0x400;
pub const TT_READ_ONLY_FLAG: u64 = 0xc0;
pub const TT_READ_WRITE_FLAG: u64 = 0x40;
pub const TT_NO_EXECUTE_FLAG: u64 = 0x0060_0000_0000_0000;

pub const TT_COPY_ON_WRITE_FLAG: u64 = 0x0400_0000_0000_0000;

pub const TT_TYPE_MASK: u64 = 0b11;
pub const TT_TABLE_MASK: u64 = 0x0000_ffff_ffff_f000;
pub const TT_BLOCK_MASK: u64 = 0x0000_ffff_ffff_f000;
pub const TT_PERMISSIONS_MASK: u64 = 0xc0;

/// The number of address bits translated below the top-level table.
pub const TL0_ADDR_BITS: usize = 39;

/// A translation table, named by the physical address of its top-level table.
pub struct TranslationTable(pub u64);

/// The size in bytes of a page.
pub fn page_size() -> (r: usize)
    ensures
        r == PAGE_SIZE,
{
    4096
}

/// The number of descriptors in a table.
pub fn table_entries() -> (r: usize)
    ensures
        r == PAGE_WORDS,
{
    4096 / 8
}

// ---------------------------------------------------------------------------------------
// Descriptors

/// The bits of a descriptor that give its type.
pub open spec fn spec_descriptor_type(desc: u64) -> u64 {
    desc & TT_TYPE_MASK
}

/// A descriptor that maps a block (or, at the last level, a page).
pub open spec fn spec_is_block(addr_bits: usize, desc: u64) -> bool {
    if addr_bits == 12 {
        spec_descriptor_type(desc) == TT3_DESCRIPTOR_BLOCK
    } else {
        spec_descriptor_type(desc) == TT2_DESCRIPTOR_BLOCK
    }
}

/// A descriptor that points to a table of the next level.
pub open spec fn spec_is_table(addr_bits: usize, desc: u64) -> bool {
    addr_bits != 12 && spec_descriptor_type(desc) == TT2_DESCRIPTOR_TABLE
}

/// A descriptor that maps nothing.
pub open spec fn spec_is_empty(desc: u64) -> bool {
    spec_descriptor_type(desc) == 0
}

/// The levels of the translation: the number of address bits below each level.
pub open spec fn valid_level(addr_bits: usize) -> bool {
    addr_bits == 12 || addr_bits == 21 || addr_bits == 30 || addr_bits == 39
}

/// The size of the memory covered by one descriptor at a level (`1 << addr_bits`).
pub open spec fn spec_granule(addr_bits: usize) -> u64 {
    if addr_bits == 12 {
        0x1000
    } else if addr_bits == 21 {
        0x20_0000
    } else if addr_bits == 30 {
        0x4000_0000
    } else {
        0x80_0000_0000
    }
}

/// The index into a table of the given level that a virtual address selects.
pub open spec fn spec_table_index(addr_bits: usize, vaddr: u64) -> int {
    ((vaddr >> addr_bits as u64) & 0x1ff) as int
}

/// The attribute-index field of a descriptor.
pub open spec fn spec_attribute_index(index: u64) -> u64 {
    (index & 0x7) << 2
}

/// The descriptor flags for a type of memory.
pub open spec fn spec_memory_type_flags(mtype: MemoryType) -> u64 {
    match mtype {
        MemoryType::Unallocated => 0 | spec_attribute_index(0),
        MemoryType::Allocated => TT_ACCESS_FLAG | spec_attribute_index(0),
        MemoryType::Existing => TT_ACCESS_FLAG | spec_attribute_index(0),
        MemoryType::ExistingNoCache => TT_ACCESS_FLAG | spec_attribute_index(1),
    }
}

/// The descriptor flags for a set of permissions.
pub open spec fn spec_memory_permissions_flags(permissions: MemoryPermissions) -> u64 {
    match permissions {
        MemoryPermissions::ReadOnly => TT_READ_ONLY_FLAG | TT_NO_EXECUTE_FLAG,
        MemoryPermissions::ReadExecute => TT_READ_ONLY_FLAG,
        MemoryPermissions::ReadWrite => TT_READ_WRITE_FLAG | TT_NO_EXECUTE_FLAG,
        MemoryPermissions::ReadWriteExecute => TT_READ_WRITE_FLAG,
    }
}

/// The type bits of a descriptor that maps a granule of the given size.
pub open spec fn spec_block_type(granuale_size: u64) -> u64 {
    if granuale_size == PAGE_SIZE as u64 { TT3_DESCRIPTOR_BLOCK } else { TT2_DESCRIPTOR_BLOCK }
}

/// Masking a descriptor with the address mask leaves an address of at most 48 bits.
pub proof fn lemma_masked_addr(desc: u64)
    ensures
        desc & TT_TABLE_MASK <= 0x0000_ffff_ffff_f000,
        (desc & TT_TABLE_MASK) % 4096 == 0,
        (desc & TT_TABLE_MASK) & 0xffff_0000_0000_0000 == 0,
        desc & TT_TYPE_MASK <= 3,
{
    assert(desc & 0x0000_ffff_ffff_f000u64 <= 0x0000_ffff_ffff_f000u64) by (bit_vector);
    assert((desc & 0x0000_ffff_ffff_f000u64) % 4096 == 0) by (bit_vector);
    assert((desc & 0x0000_ffff_ffff_f000u64) & 0xffff_0000_0000_0000u64 == 0) by (bit_vector);
    assert(desc & 3 <= 3) by (bit_vector);
}

/// Word `index` of the table at `table`.
pub fn read_descriptor(pages: &PagePool, table: PhysicalAddress, index: usize) -> (r: u64)
    requires
        pages@.wf(),
        pages@.is_page(table.0),
        index < PAGE_WORDS,
    ensures
        r == pages@.word(table.0, index as int),
{
    pages.read_word(table.0, index)
}

/// The type bits of descriptor `index` of a table.
pub fn descriptor_type(pages: &PagePool, table: PhysicalAddress, index: usize) -> (r: u64)
    requires
        pages@.wf(),
        pages@.is_page(table.0),
        index < PAGE_WORDS,
    ensures
        r == spec_descriptor_type(pages@.word(table.0, index as int)),
{
    pages.read_word(table.0, index) & TT_TYPE_MASK
}

/// True when descriptor `index` of a table at the given level maps a block.
pub fn is_block(addr_bits: usize, pages: &PagePool, table: PhysicalAddress, index: usize) -> (r: bool)
    requires
        pages@.wf(),
        pages@.is_page(table.0),
        index < PAGE_WORDS,
    ensures
        r == spec_is_block(addr_bits, pages@.word(table.0, index as int)),
{
    let dtype = descriptor_type(pages, table, index);
    if addr_bits == 12 {
        dtype == TT3_DESCRIPTOR_BLOCK
    } else {
        dtype == TT2_DESCRIPTOR_BLOCK
    }
}

/// True when descriptor `index` of a table at the given level points to another table.
pub fn is_table(addr_bits: usize, pages: &PagePool, table: PhysicalAddress, index: usize) -> (r: bool)
    requires
        pages@.wf(),
        pages@.is_page(table.0),
        index < PAGE_WORDS,
    ensures
        r == spec_is_table(addr_bits, pages@.word(table.0, index as int)),
{
    addr_bits != 12 && descriptor_type(pages, table, index) == TT2_DESCRIPTOR_TABLE
}

/// True when descriptor `index` of a table maps nothing.
pub fn is_empty(pages: &PagePool, table: PhysicalAddress, index: usize) -> (r: bool)
    requires
        pages@.wf(),
        pages@.is_page(table.0),
        index < PAGE_WORDS,
    ensures
        r == spec_is_empty(pages@.word(table.0, index as int)),
{
    descriptor_type(pages, table, index) == 0
}

/// The address of the next-level table that descriptor `index` points to.
pub fn table_ptr(pages: &PagePool, table: PhysicalAddress, index: usize) -> (r: PhysicalAddress)
    requires
        pages@.wf(),
        pages@.is_page(table.0),
        index < PAGE_WORDS,
    ensures
        r.0 == pages@.word(table.0, index as int) & TT_TABLE_MASK,
{
    let d = pages.read_word(table.0, index);
    proof { lemma_masked_addr(d); }
    PhysicalAddress::from_u64(d & TT_TABLE_MASK)
}

/// The address of the block that descriptor `index` maps.
pub fn block_ptr(pages: &PagePool, table: PhysicalAddress, index: usize) -> (r: PhysicalAddress)
    requires
        pages@.wf(),
        pages@.is_page(table.0),
        index < PAGE_WORDS,
    ensures
        r.0 == pages@.word(table.0, index as int) & TT_BLOCK_MASK,
{
    let d = pages.read_word(table.0, index);
    proof { lemma_masked_addr(d); }
    PhysicalAddress::from_u64(d & TT_BLOCK_MASK)
}

/// The index into a table of the given level that a virtual address selects.
pub fn table_index_from_vaddr(bits: usize, vaddr: VirtualAddress) -> (r: usize)
    requires
        bits < 64,
    ensures
        r == spec_table_index(bits, vaddr.0),
        r < PAGE_WORDS,
{
    let v = vaddr.0 >> (bits as u64);
    assert(v & 0x1ff <= 0x1ff) by (bit_vector);
    (v & 0x1ff) as usize
}

/// The size of the memory covered by one descriptor at the given level.
pub fn granule_size(addr_bits: usize) -> (r: u64)
    requires
        valid_level(addr_bits),
    ensures
        r == spec_granule(addr_bits),
{
    if addr_bits == 12 {
        0x1000
    } else if addr_bits == 21 {
        0x20_0000
    } else if addr_bits == 30 {
        0x4000_0000
    } else {
        0x80_0000_0000
    }
}

/// The attribute-index field of a descriptor.
pub fn attribute_index(index: u64) -> (r: u64)
    ensures
        r == spec_attribute_index(index),
{
    (index & 0x7) << 2
}

/// The descriptor flags for a type of memory.
pub fn memory_type_flags(mtype: MemoryType) -> (r: u64)
    ensures
        r == spec_memory_type_flags(mtype),
{
    match mtype {
        MemoryType::Unallocated => 0 | attribute_index(0),
        MemoryType::Allocated => TT_ACCESS_FLAG | attribute_index(0),
        MemoryType::Existing => TT_ACCESS_FLAG | attribute_index(0),
        MemoryType::ExistingNoCache => TT_ACCESS_FLAG | attribute_index(1),
    }
}

/// The descriptor flags for a set of permissions.
pub fn memory_permissions_flags(permissions: MemoryPermissions) -> (r: u64)
    ensures
        r == spec_memory_permissions_flags(permissions),
{
    match permissions {
        MemoryPermissions::ReadOnly => TT_READ_ONLY_FLAG | TT_NO_EXECUTE_FLAG,
        MemoryPermissions::ReadExecute => TT_READ_ONLY_FLAG,
        MemoryPermissions::ReadWrite => TT_READ_WRITE_FLAG | TT_NO_EXECUTE_FLAG,
        MemoryPermissions::ReadWriteExecute => TT_READ_WRITE_FLAG,
    }
}

/// The type bits of a descriptor that maps a granule of the given size.
pub fn block_type(granuale_size: u64) -> (r: u64)
    ensures
        r == spec_block_type(granuale_size),
{
    if granuale_size == PAGE_SIZE as u64 {
        TT3_DESCRIPTOR_BLOCK
    } else {
        TT2_DESCRIPTOR_BLOCK
    }
}

/// The error, if any, for a range that does not start on a page or is not made of whole pages.
pub open spec fn spec_check_vaddr_and_usize(vaddr: u64, len: usize) -> Result<(), KernelError> {
    if vaddr % (PAGE_SIZE as u64) != 0 {
        Err(KernelError::AddressMisaligned)
    } else if len % PAGE_SIZE != 0 {
        Err(KernelError::UnexpectedGranualeSize)
    } else {
        Ok(())
    }
}

/// Checks that a range starts on a page boundary and is made of whole pages.
pub fn check_vaddr_and_usize(vaddr: VirtualAddress, len: usize) -> (r: Result<(), KernelError>)
    ensures
        r == spec_check_vaddr_and_usize(vaddr.0, len),
{
    let v = vaddr.0;
    assert(v & 0xfff == v % 4096) by (bit_vector);
    if vaddr.0 & ((PAGE_SIZE - 1) as u64) != 0 {
        Err(KernelError::AddressMisaligned)
    } else if len % PAGE_SIZE != 0 {
        Err(KernelError::UnexpectedGranualeSize)
    } else {
        Ok(())
    }
}


// ---------------------------------------------------------------------------------------
// Walking the tables

/// The pool with every word of the page at `table` set to `value`.
pub open spec fn fill_page(pool: PagePoolView, table: u64, value: u64) -> PagePoolView {
    PagePoolView {
        words: Seq::new(pool.words.len(), |k: int|
            if PagePoolView::word_pos(table, 0) <= k < PagePoolView::word_pos(table, PAGE_WORDS as int) {
                value
            } else {
                pool.words[k]
            }),
        refs: pool.refs,
    }
}

/// The descriptors with which a table made on demand below a descriptor is filled: they
/// inherit the permissions and copy-on-write flag of the descriptor above them.
pub open spec fn spec_initial_descriptor(granuale_size: u64, parent_descriptor: u64) -> u64 {
    (parent_descriptor & (TT_PERMISSIONS_MASK | TT_COPY_ON_WRITE_FLAG))
        | (if granuale_size == PAGE_SIZE as u64 { TT3_DESCRIPTOR_BLOCK } else { TT2_DESCRIPTOR_TABLE })
}

/// Where the walk from `table` at level `addr_bits` ends for `vaddr`: the table and index of
/// the block descriptor that maps it, with the size of the block.
pub open spec fn spec_lookup_level(pool: PagePoolView, addr_bits: usize, table: u64, vaddr: u64)
    -> Result<(u64, int, u64), KernelError>
    decreases addr_bits,
{
    if !pool.is_page(table) {
        Err(KernelError::CorruptTranslationTable)
    } else {
        let index = spec_table_index(addr_bits, vaddr);
        let desc = pool.word(table, index);
        if spec_is_block(addr_bits, desc) {
            Ok((table, index, spec_granule(addr_bits)))
        } else if addr_bits <= 12 {
            Err(KernelError::AddressUnmapped)
        } else {
            spec_lookup_level(pool, (addr_bits - 9) as usize, desc & TT_TABLE_MASK, vaddr)
        }
    }
}

/// The walk that may change the tables: where a descriptor points to no table and `alloc`
/// holds, a page is allocated, linked into the descriptor and filled with descriptors
/// inheriting its flags; without `alloc` such a descriptor ends the walk as unmapped.
/// Gives the location of the block descriptor and the pool after the walk.
pub open spec fn spec_lookup_level_mut(pool: PagePoolView, addr_bits: usize, table: u64, vaddr: u64, alloc: bool)
    -> (Result<(u64, int, u64), KernelError>, PagePoolView)
    decreases addr_bits,
{
    if !pool.is_page(table) {
        (Err(KernelError::CorruptTranslationTable), pool)
    } else {
        let index = spec_table_index(addr_bits, vaddr);
        let desc = pool.word(table, index);
        if spec_is_block(addr_bits, desc) {
            (Ok((table, index, spec_granule(addr_bits))), pool)
        } else if addr_bits <= 12 {
            (Err(KernelError::AddressUnmapped), pool)
        } else if pool.is_page(desc & TT_TABLE_MASK) {
            spec_lookup_level_mut(pool, (addr_bits - 9) as usize, desc & TT_TABLE_MASK, vaddr, alloc)
        } else if !alloc {
            (Err(KernelError::AddressUnmapped), pool)
        } else {
            let (r, p1) = pool.alloc_result();
            match r {
                Err(e) => (Err(e), p1),
                Ok(next) => {
                    let d2 = desc | (next & TT_TABLE_MASK);
                    let p2 = p1.set_word(table, index, d2);
                    if !p2.is_page(d2 & TT_TABLE_MASK) {
                        (Err(KernelError::CorruptTranslationTable), p2)
                    } else {
                        let p3 = fill_page(p2, d2 & TT_TABLE_MASK, spec_initial_descriptor(spec_granule(addr_bits), d2));
                        spec_lookup_level_mut(p3, (addr_bits - 9) as usize, p3.word(table, index) & TT_TABLE_MASK, vaddr, alloc)
                    }
                },
            }
        }
    }
}

/// The physical address that a virtual address translates to.
pub open spec fn spec_translate(pool: PagePoolView, root: u64, vaddr: u64) -> Result<u64, KernelError> {
    match spec_lookup_level(pool, TL0_ADDR_BITS, root, (vaddr - vaddr % (PAGE_SIZE as u64)) as u64) {
        Ok((table, index, granule)) => Ok(((pool.word(table, index) & TT_BLOCK_MASK) + vaddr % granule) as u64),
        Err(e) => Err(e),
    }
}

/// Allocation keeps the existing pages and their contents, and the new page is a page.
pub proof fn lemma_alloc_page(pool: PagePoolView)
    requires
        pool.wf(),
        pool.num_pages() < crate::mm::pages::MAX_PAGES,
    ensures
        pool.push_zeroed().wf(),
        pool.push_zeroed().is_page(pool.next_page_addr()),
        pool.next_page_addr() & TT_TABLE_MASK == pool.next_page_addr(),
        !pool.is_page(pool.next_page_addr()),
        forall|p: u64| pool.is_page(p) ==> pool.push_zeroed().is_page(p),
        forall|p: u64, i: int| pool.is_page(p) && 0 <= i < PAGE_WORDS ==>
            pool.push_zeroed().word(p, i) == #[trigger] pool.word(p, i),
        forall|i: int| 0 <= i < PAGE_WORDS ==> #[trigger] pool.push_zeroed().word(pool.next_page_addr(), i) == 0,
{
    let n = pool.num_pages();
    let a = pool.next_page_addr();
    assert((n + 1) * 4096 <= (crate::mm::pages::MAX_PAGES + 1) * 4096) by (nonlinear_arith)
        requires n < crate::mm::pages::MAX_PAGES;
    assert(a as int == (n + 1) * 4096);
    assert(a % 4096 == 0 && a / 4096 == n + 1) by (nonlinear_arith)
        requires a as int == (n + 1) * 4096;
    assert(a & 0x0000_ffff_ffff_f000u64 == a) by (bit_vector)
        requires a % 4096 == 0, a < 0x1_0000_0000_0000u64;
    let q = pool.push_zeroed();
    assert(q.words.len() == pool.words.len() + PAGE_WORDS);
    assert(n * PAGE_WORDS + PAGE_WORDS == (n + 1) * PAGE_WORDS) by (nonlinear_arith);
    assert forall|p: u64, i: int| pool.is_page(p) && 0 <= i < PAGE_WORDS implies
        q.word(p, i) == #[trigger] pool.word(p, i) by {
        lemma_page_addr_bound(pool, p);
        let j = PagePoolView::page_index(p);
        assert(j * PAGE_WORDS + i < n * PAGE_WORDS) by (nonlinear_arith)
            requires j < n, 0 <= i < PAGE_WORDS;
    }
    assert forall|i: int| 0 <= i < PAGE_WORDS implies #[trigger] q.word(a, i) == 0 by {
        assert(PagePoolView::word_pos(a, i) == n * PAGE_WORDS + i);
    }
}

/// The descriptor at the end of a walk, read through its location.
pub fn lookup_level(addr_bits: usize, pages: &PagePool, table: PhysicalAddress, vaddr: VirtualAddress)
    -> (r: Result<(PhysicalAddress, usize, u64), KernelError>)
    requires
        pages@.wf(),
        valid_level(addr_bits),
    ensures
        match r {
            Ok((t, i, g)) => spec_lookup_level(pages@, addr_bits, table.0, vaddr.0) == Ok::<(u64, int, u64), KernelError>((t.0, i as int, g)),
            Err(e) => spec_lookup_level(pages@, addr_bits, table.0, vaddr.0) == Err::<(u64, int, u64), KernelError>(e),
        },
        match r {
            Ok((t, i, g)) => pages@.is_page(t.0) && i < PAGE_WORDS
                && (g == 0x1000 || g == 0x20_0000 || g == 0x4000_0000 || g == 0x80_0000_0000),
            Err(_) => true,
        },
    decreases addr_bits,
{
    if !pages.is_page(table.0) {
        return Err(KernelError::CorruptTranslationTable);
    }
    let granuale_size = granule_size(addr_bits);
    let index = table_index_from_vaddr(addr_bits, vaddr);
    if is_block(addr_bits, pages, table, index) {
        Ok((table, index, granuale_size))
    } else if addr_bits == 12 {
        Err(KernelError::AddressUnmapped)
    } else {
        let next = table_ptr(pages, table, index);
        lookup_level(addr_bits - 9, pages, next, vaddr)
    }
}

/// Sets every descriptor of a table to the flags inherited from its parent descriptor.
pub fn initialize_table(granuale_size: u64, pages: &mut PagePool, table: PhysicalAddress, parent_descriptor: u64)
    -> (r: Result<(), KernelError>)
    requires
        old(pages)@.wf(),
        old(pages)@.is_page(table.0),
    ensures
        r is Ok,
        final(pages)@ == fill_page(old(pages)@, table.0, spec_initial_descriptor(granuale_size, parent_descriptor)),
        final(pages)@.wf(),
{
    let dtype = if granuale_size == PAGE_SIZE as u64 {
        TT3_DESCRIPTOR_BLOCK
    } else {
        TT2_DESCRIPTOR_TABLE
    };
    let flags = (parent_descriptor & (TT_PERMISSIONS_MASK | TT_COPY_ON_WRITE_FLAG)) | dtype;
    let ghost start = PagePoolView::word_pos(table.0, 0);
    let ghost old_words = pages@.words;
    proof { lemma_page_addr_bound(pages@, table.0); }

    let mut index: usize = 0;
    while index < table_entries()
        invariant
            0 <= index <= PAGE_WORDS,
            pages@.wf(),
            pages@.refs == old(pages)@.refs,
            old_words == old(pages)@.words,
            pages@.is_page(table.0),
            start == PagePoolView::word_pos(table.0, 0),
            0 <= start,
            start + PAGE_WORDS <= old_words.len(),
            pages@.words.len() == old_words.len(),
            forall|k: int| 0 <= k < old_words.len() ==> #[trigger] pages@.words[k] ==
                (if start <= k < start + index { flags } else { old_words[k] }),
        decreases PAGE_WORDS - index,
    {
        pages.write_word(table.0, index, flags);
        index += 1;
    }
    assert(pages@.words =~= fill_page(old(pages)@, table.0, flags).words);
    Ok(())
}

/// Allocates a zeroed page to hold a table.
pub fn allocate_table(pages: &mut PagePool) -> (r: Result<PhysicalAddress, KernelError>)
    requires
        old(pages)@.wf(),
    ensures
        final(pages)@.wf(),
        (match r { Ok(p) => Ok(p.0), Err(e) => Err(e) }, final(pages)@) == old(pages)@.alloc_result(),
{
    pages.alloc_page_zeroed()
}

/// True when every descriptor of a table maps nothing.
pub open spec fn spec_table_is_empty(pool: PagePoolView, table: u64) -> bool {
    forall|i: int| 0 <= i < PAGE_WORDS ==> spec_descriptor_type(#[trigger] pool.word(table, i)) == TT_DESCRIPTOR_EMPTY
}

/// True when every descriptor of a table maps nothing.
pub fn table_is_empty(pages: &PagePool, table: PhysicalAddress) -> (r: bool)
    requires
        pages@.wf(),
        pages@.is_page(table.0),
    ensures
        r == spec_table_is_empty(pages@, table.0),
{
    let mut index: usize = 0;
    while index < table_entries()
        invariant
            0 <= index <= PAGE_WORDS,
            pages@.wf(),
            pages@.is_page(table.0),
            forall|i: int| 0 <= i < index ==> spec_descriptor_type(#[trigger] pages@.word(table.0, i)) == TT_DESCRIPTOR_EMPTY,
        decreases PAGE_WORDS - index,
    {
        if descriptor_type(pages, table, index) != TT_DESCRIPTOR_EMPTY {
            return false;
        }
        index += 1;
    }
    true
}

/// Makes descriptor `index` point to a table: a table descriptor is kept, an empty one gets
/// a newly allocated table, and a block descriptor is refused as already mapped.
pub open spec fn spec_ensure_table_entry(pool: PagePoolView, table: u64, index: int) -> (Result<(), KernelError>, PagePoolView) {
    let desc_type = spec_descriptor_type(pool.word(table, index));
    if desc_type == TT2_DESCRIPTOR_TABLE {
        (Ok(()), pool)
    } else if desc_type == TT_DESCRIPTOR_EMPTY {
        let (r, p1) = pool.alloc_result();
        match r {
            Err(e) => (Err(e), p1),
            Ok(next) => (Ok(()), p1.set_word(table, index, (next & TT_TABLE_MASK) | TT2_DESCRIPTOR_TABLE)),
        }
    } else if desc_type == TT2_DESCRIPTOR_BLOCK {
        (Err(KernelError::AddressAlreadyMapped), pool)
    } else {
        (Err(KernelError::CorruptTranslationTable), pool)
    }
}

/// Makes descriptor `index` of a table point to a table of the next level.
pub fn ensure_table_entry(pages: &mut PagePool, table: PhysicalAddress, index: usize) -> (r: Result<(), KernelError>)
    requires
        old(pages)@.wf(),
        old(pages)@.is_page(table.0),
        index < PAGE_WORDS,
    ensures
        final(pages)@.wf(),
        (r, final(pages)@) == spec_ensure_table_entry(old(pages)@, table.0, index as int),
{
    let desc_type = descriptor_type(pages, table, index);
    if desc_type == TT2_DESCRIPTOR_TABLE {
        Ok(())
    } else if desc_type == TT_DESCRIPTOR_EMPTY {
        let ghost p0 = pages@;
        let next_table = allocate_table(pages)?;
        proof { lemma_alloc_page(p0); }
        pages.write_word(table.0, index, (next_table.0 & TT_TABLE_MASK) | TT2_DESCRIPTOR_TABLE);
        Ok(())
    } else if desc_type == TT2_DESCRIPTOR_BLOCK {
        Err(KernelError::AddressAlreadyMapped)
    } else {
        Err(KernelError::CorruptTranslationTable)
    }
}

/// The walk that may change the tables; see `spec_lookup_level_mut`.
pub fn lookup_level_mut(addr_bits: usize, pages: &mut PagePool, table: PhysicalAddress, vaddr: VirtualAddress, alloc: bool)
    -> (r: Result<(PhysicalAddress, usize, u64), KernelError>)
    requires
        old(pages)@.wf(),
        valid_level(addr_bits),
    ensures
        final(pages)@.wf(),
        final(pages)@ == spec_lookup_level_mut(old(pages)@, addr_bits, table.0, vaddr.0, alloc).1,
        match r {
            Ok((t, i, g)) => spec_lookup_level_mut(old(pages)@, addr_bits, table.0, vaddr.0, alloc).0
                == Ok::<(u64, int, u64), KernelError>((t.0, i as int, g)),
            Err(e) => spec_lookup_level_mut(old(pages)@, addr_bits, table.0, vaddr.0, alloc).0
                == Err::<(u64, int, u64), KernelError>(e),
        },
        match r {
            Ok((t, i, g)) => final(pages)@.is_page(t.0) && i < PAGE_WORDS,
            Err(_) => true,
        },
    decreases addr_bits,
{
    if !pages.is_page(table.0) {
        return Err(KernelError::CorruptTranslationTable);
    }
    let granuale_size = granule_size(addr_bits);
    let index = table_index_from_vaddr(addr_bits, vaddr);
    if is_block(addr_bits, pages, table, index) {
        Ok((table, index, granuale_size))
    } else if addr_bits == 12 {
        Err(KernelError::AddressUnmapped)
    } else {
        let ptr = table_ptr(pages, table, index);
        if !pages.is_page(ptr.0) {
            if alloc {
                let ghost p0 = pages@;
                let next_table = allocate_table(pages)?;
                proof { lemma_alloc_page(p0); }
                let desc = pages.read_word(table.0, index);
                pages.write_word(table.0, index, desc | (next_table.0 & TT_TABLE_MASK));

                let parent_descriptor = pages.read_word(table.0, index);
                let subtable = table_ptr(pages, table, index);
                if !pages.is_page(subtable.0) {
                    return Err(KernelError::CorruptTranslationTable);
                }
                initialize_table(granuale_size, pages, subtable, parent_descriptor)?;
            } else {
                return Err(KernelError::AddressUnmapped);
            }
        }
        let next = table_ptr(pages, table, index);
        lookup_level_mut(addr_bits - 9, pages, next, vaddr, alloc)
    }
}

impl TranslationTable {
    /// A new, empty translation table.
    pub fn new_table(pages: &mut PagePool) -> (r: Result<Self, KernelError>)
        requires
            old(pages)@.wf(),
        ensures
            final(pages)@.wf(),
            (match r { Ok(t) => Ok(t.0), Err(e) => Err(e) }, final(pages)@) == old(pages)@.alloc_result(),
    {
        let tl0 = allocate_table(pages)?;
        Ok(TranslationTable(tl0.0))
    }

    /// The value for the translation table base register.
    pub fn get_ttbr(&self) -> (r: u64)
        ensures
            r == self.0,
    {
        self.0
    }

    /// The physical address that `vaddr` translates to.
    pub fn translate_addr(&self, pages: &PagePool, vaddr: VirtualAddress) -> (r: Result<PhysicalAddress, KernelError>)
        requires
            pages@.wf(),
        ensures
            match r {
                Ok(p) => spec_translate(pages@, self.0, vaddr.0) == Ok::<u64, KernelError>(p.0),
                Err(e) => spec_translate(pages@, self.0, vaddr.0) == Err::<u64, KernelError>(e),
            },
    {
        let aligned = VirtualAddress(vaddr.0 - vaddr.0 % (PAGE_SIZE as u64));
        let (table, index, granuale_size) = lookup_level(TL0_ADDR_BITS, pages, PhysicalAddress(self.0), aligned)?;
        let desc = pages.read_word(table.0, index);
        proof { lemma_masked_addr(desc); }
        assert(vaddr.0 % granuale_size < 0x80_0000_0000);
        Ok(PhysicalAddress((desc & TT_BLOCK_MASK) + vaddr.0 % granuale_size))
    }

    /// Marks the page at `vaddr` read-only and copy-on-write.
    pub fn set_page_copy_on_write(&mut self, pages: &mut PagePool, vaddr: VirtualAddress) -> (r: Result<(), KernelError>)
        requires
            old(pages)@.wf(),
        ensures
            *final(self) == *old(self),
            final(pages)@.wf(),
            ({
                let walk = spec_lookup_level_mut(old(pages)@, TL0_ADDR_BITS, old(self).0, vaddr.0, false);
                match spec_check_vaddr_and_usize(vaddr.0, PAGE_SIZE) {
                    Err(e) => r == Err::<(), KernelError>(e) && final(pages)@ == old(pages)@,
                    Ok(_) => match walk.0 {
                        Err(e) => r == Err::<(), KernelError>(e) && final(pages)@ == old(pages)@,
                        Ok((t, i, g)) => if g == PAGE_SIZE as u64 {
                            r is Ok && final(pages)@ == old(pages)@.set_word(t, i,
                                (old(pages)@.word(t, i) & !TT_PERMISSIONS_MASK) | TT_COPY_ON_WRITE_FLAG | TT_READ_ONLY_FLAG)
                        } else {
                            r == Err::<(), KernelError>(KernelError::UnexpectedGranualeSize) && final(pages)@ == old(pages)@
                        },
                    },
                }
            }),
            r is Ok ==> forall|v: u64| #[trigger] spec_translate(final(pages)@, old(self).0, v)
                == spec_translate(old(pages)@, old(self).0, v),
    {
        check_vaddr_and_usize(vaddr, page_size())?;
        proof { lemma_lookup_without_alloc_keeps_pool(old(pages)@, TL0_ADDR_BITS, self.0, vaddr.0); }
        let (table, index, granuale_size) = lookup_level_mut(TL0_ADDR_BITS, pages, PhysicalAddress(self.0), vaddr, false)?;
        if granuale_size == PAGE_SIZE as u64 {
            let desc = pages.read_word(table.0, index);
            pages.write_word(table.0, index, (desc & !TT_PERMISSIONS_MASK) | TT_COPY_ON_WRITE_FLAG | TT_READ_ONLY_FLAG);
            proof {
                assert forall|v: u64| #[trigger] spec_translate(pages@, self.0, v) == spec_translate(old(pages)@, self.0, v) by {
                    lemma_copy_on_write_keeps_translation(old(pages)@, table.0, index as int, self.0, v, false);
                }
            }
            Ok(())
        } else {
            Err(KernelError::UnexpectedGranualeSize)
        }
    }

    /// Makes the page at `vaddr` writable again, returning the page it maps and whether it
    /// was marked copy-on-write.
    pub fn reset_page_copy_on_write(&mut self, pages: &mut PagePool, vaddr: VirtualAddress) -> (r: Result<(PhysicalAddress, bool), KernelError>)
        requires
            old(pages)@.wf(),
        ensures
            *final(self) == *old(self),
            final(pages)@.wf(),
            ({
                let walk = spec_lookup_level_mut(old(pages)@, TL0_ADDR_BITS, old(self).0, vaddr.0, false);
                match spec_check_vaddr_and_usize(vaddr.0, PAGE_SIZE) {
                    Err(e) => r == Err::<(PhysicalAddress, bool), KernelError>(e) && final(pages)@ == old(pages)@,
                    Ok(_) => match walk.0 {
                        Err(e) => r == Err::<(PhysicalAddress, bool), KernelError>(e) && final(pages)@ == old(pages)@,
                        Ok((t, i, g)) => if g == PAGE_SIZE as u64 {
                            let old_desc = old(pages)@.word(t, i);
                            let new_desc = (old_desc & !(TT_PERMISSIONS_MASK | TT_COPY_ON_WRITE_FLAG)) | TT_READ_WRITE_FLAG;
                            &&& final(pages)@ == old(pages)@.set_word(t, i, new_desc)
                            &&& r == Ok::<(PhysicalAddress, bool), KernelError>((
                                PhysicalAddress(new_desc & TT_BLOCK_MASK),
                                (old_desc & TT_COPY_ON_WRITE_FLAG) == TT_COPY_ON_WRITE_FLAG))
                        } else {
                            r == Err::<(PhysicalAddress, bool), KernelError>(KernelError::UnexpectedGranualeSize) && final(pages)@ == old(pages)@
                        },
                    },
                }
            }),
            r is Ok ==> forall|v: u64| #[trigger] spec_translate(final(pages)@, old(self).0, v)
                == spec_translate(old(pages)@, old(self).0, v),
    {
        check_vaddr_and_usize(vaddr, page_size())?;
        proof { lemma_lookup_without_alloc_keeps_pool(old(pages)@, TL0_ADDR_BITS, self.0, vaddr.0); }
        let (table, index, granuale_size) = lookup_level_mut(TL0_ADDR_BITS, pages, PhysicalAddress(self.0), vaddr, false)?;
        if granuale_size == PAGE_SIZE as u64 {
            let desc = pages.read_word(table.0, index);
            let previous_cow = (desc & TT_COPY_ON_WRITE_FLAG) == TT_COPY_ON_WRITE_FLAG;
            let new_desc = (desc & !(TT_PERMISSIONS_MASK | TT_COPY_ON_WRITE_FLAG)) | TT_READ_WRITE_FLAG;
            pages.write_word(table.0, index, new_desc);
            proof {
                assert forall|v: u64| #[trigger] spec_translate(pages@, self.0, v) == spec_translate(old(pages)@, self.0, v) by {
                    lemma_copy_on_write_keeps_translation(old(pages)@, table.0, index as int, self.0, v, true);
                }
            }
            let d = pages.read_word(table.0, index);
            proof { lemma_masked_addr(d); }
            Ok((PhysicalAddress::from_u64(d & TT_BLOCK_MASK), previous_cow))
        } else {
            Err(KernelError::UnexpectedGranualeSize)
        }
    }

    /// Points the page at `vaddr` to the physical page `paddr`, making any missing tables on
    /// the way.
    pub fn update_page_addr(&mut self, vaddr: VirtualAddress, paddr: PhysicalAddress, pages: &mut PagePool) -> (r: Result<(), KernelError>)
        requires
            old(pages)@.wf(),
        ensures
            *final(self) == *old(self),
            final(pages)@.wf(),
            ({
                let walk = spec_lookup_level_mut(old(pages)@, TL0_ADDR_BITS, old(self).0, vaddr.0, true);
                match spec_check_vaddr_and_usize(vaddr.0, PAGE_SIZE) {
                    Err(e) => r == Err::<(), KernelError>(e) && final(pages)@ == old(pages)@,
                    Ok(_) => match walk.0 {
                        Err(e) => r == Err::<(), KernelError>(e) && final(pages)@ == walk.1,
                        Ok((t, i, g)) => if g == PAGE_SIZE as u64 {
                            r is Ok && final(pages)@ == walk.1.set_word(t, i,
                                (walk.1.word(t, i) & !TT_BLOCK_MASK) | (paddr.0 & TT_BLOCK_MASK) | TT_ACCESS_FLAG)
                        } else {
                            r == Err::<(), KernelError>(KernelError::UnexpectedGranualeSize) && final(pages)@ == walk.1
                        },
                    },
                }
            }),
    {
        check_vaddr_and_usize(vaddr, page_size())?;
        let (table, index, granuale_size) = lookup_level_mut(TL0_ADDR_BITS, pages, PhysicalAddress(self.0), vaddr, true)?;
        if granuale_size == PAGE_SIZE as u64 {
            let desc = pages.read_word(table.0, index);
            let cleared = desc & !TT_BLOCK_MASK;
            pages.write_word(table.0, index, cleared | (paddr.0 & TT_BLOCK_MASK) | TT_ACCESS_FLAG);
            Ok(())
        } else {
            Err(KernelError::UnexpectedGranualeSize)
        }
    }
}

/// A walk that may not allocate leaves the pool as it is, and agrees with the read-only walk
/// wherever that walk finds a block.
pub proof fn lemma_lookup_without_alloc_keeps_pool(pool: PagePoolView, addr_bits: usize, table: u64, vaddr: u64)
    ensures
        spec_lookup_level_mut(pool, addr_bits, table, vaddr, false).1 == pool,
    decreases addr_bits,
{
    if pool.is_page(table) {
        let index = spec_table_index(addr_bits, vaddr);
        let desc = pool.word(table, index);
        if !spec_is_block(addr_bits, desc) && addr_bits > 12 && pool.is_page(desc & TT_TABLE_MASK) {
            lemma_lookup_without_alloc_keeps_pool(pool, (addr_bits - 9) as usize, desc & TT_TABLE_MASK, vaddr);
        }
    }
}

/// Changing a descriptor in bits that are neither its type nor its address leaves every
/// walk through the tables where it was.
pub proof fn lemma_walk_ignores_flag_bits(pool: PagePoolView, t: u64, i: int, new_desc: u64,
    addr_bits: usize, table: u64, vaddr: u64)
    requires
        pool.wf(),
        pool.is_page(t),
        0 <= i < PAGE_WORDS,
        new_desc & TT_TYPE_MASK == pool.word(t, i) & TT_TYPE_MASK,
        new_desc & TT_TABLE_MASK == pool.word(t, i) & TT_TABLE_MASK,
    ensures
        spec_lookup_level(pool.set_word(t, i, new_desc), addr_bits, table, vaddr)
            == spec_lookup_level(pool, addr_bits, table, vaddr),
    decreases addr_bits,
{
    let pool2 = pool.set_word(t, i, new_desc);
    lemma_page_addr_bound(pool, t);
    if pool.is_page(table) {
        lemma_page_addr_bound(pool, table);
        let index = spec_table_index(addr_bits, vaddr);
        assert(0 <= index < PAGE_WORDS) by {
            let x = vaddr >> addr_bits as u64;
            assert(x & 0x1ff <= 0x1ff) by (bit_vector);
        }
        let d1 = pool.word(table, index);
        let d2 = pool2.word(table, index);
        if PagePoolView::word_pos(table, index) == PagePoolView::word_pos(t, i) {
            assert(d2 == new_desc);
            assert(d1 == pool.word(t, i));
        } else {
            assert(d2 == d1);
        }
        assert(d2 & TT_TYPE_MASK == d1 & TT_TYPE_MASK);
        assert(d2 & TT_TABLE_MASK == d1 & TT_TABLE_MASK);
        if !spec_is_block(addr_bits, d1) && addr_bits > 12 {
            lemma_walk_ignores_flag_bits(pool, t, i, new_desc, (addr_bits - 9) as usize, d1 & TT_TABLE_MASK, vaddr);
        }
    }
}

/// Marking a page copy-on-write (or making it writable again) changes no translation:
/// every virtual address translates to the same physical address as before.
pub proof fn lemma_copy_on_write_keeps_translation(pool: PagePoolView, t: u64, i: int, root: u64, vaddr: u64, reset: bool)
    requires
        pool.wf(),
        pool.is_page(t),
        0 <= i < PAGE_WORDS,
    ensures
        ({
            let old_desc = pool.word(t, i);
            let new_desc = if reset {
                (old_desc & !(TT_PERMISSIONS_MASK | TT_COPY_ON_WRITE_FLAG)) | TT_READ_WRITE_FLAG
            } else {
                (old_desc & !TT_PERMISSIONS_MASK) | TT_COPY_ON_WRITE_FLAG | TT_READ_ONLY_FLAG
            };
            spec_translate(pool.set_word(t, i, new_desc), root, vaddr) == spec_translate(pool, root, vaddr)
        }),
{
    let d = pool.word(t, i);
    let new_desc = if reset {
        (d & !(TT_PERMISSIONS_MASK | TT_COPY_ON_WRITE_FLAG)) | TT_READ_WRITE_FLAG
    } else {
        (d & !TT_PERMISSIONS_MASK) | TT_COPY_ON_WRITE_FLAG | TT_READ_ONLY_FLAG
    };
    assert(((d & !0xc0u64) | 0x0400_0000_0000_0000u64 | 0xc0u64) & 3 == d & 3) by (bit_vector);
    assert(((d & !0xc0u64) | 0x0400_0000_0000_0000u64 | 0xc0u64) & 0x0000_ffff_ffff_f000u64
        == d & 0x0000_ffff_ffff_f000u64) by (bit_vector);
    assert(((d & !(0xc0u64 | 0x0400_0000_0000_0000u64)) | 0x40u64) & 3 == d & 3) by (bit_vector);
    assert(((d & !(0xc0u64 | 0x0400_0000_0000_0000u64)) | 0x40u64) & 0x0000_ffff_ffff_f000u64
        == d & 0x0000_ffff_ffff_f000u64) by (bit_vector);
    let pool2 = pool.set_word(t, i, new_desc);
    let aligned = (vaddr - vaddr % (PAGE_SIZE as u64)) as u64;
    lemma_walk_ignores_flag_bits(pool, t, i, new_desc, TL0_ADDR_BITS, root, aligned);
    match spec_lookup_level(pool, TL0_ADDR_BITS, root, aligned) {
        Ok((table, index, granule)) => {
            lemma_lookup_location(pool, TL0_ADDR_BITS, root, aligned);
            lemma_page_addr_bound(pool, t);
            lemma_page_addr_bound(pool, table);
            if PagePoolView::word_pos(table, index) == PagePoolView::word_pos(t, i) {
                assert(pool2.word(table, index) == new_desc);
            } else {
                assert(pool2.word(table, index) == pool.word(table, index));
            }
        },
        Err(_) => {},
    }
}

/// Marking a page copy-on-write and making it writable again: where the walk for the page at
/// `vaddr` ends at a page descriptor, the walks of `set_page_copy_on_write` and of the
/// `reset_page_copy_on_write` calls after it end there too; the first reset finds the
/// descriptor marked copy-on-write and gives the page that `vaddr` translated to, leaving the
/// descriptor read-write and unmarked, so that a second reset finds it unmarked and changes
/// nothing.
pub proof fn lemma_copy_on_write_pair(pool0: PagePoolView, root: u64, vaddr: u64)
    requires
        pool0.wf(),
        vaddr % (PAGE_SIZE as u64) == 0,
        spec_lookup_level(pool0, TL0_ADDR_BITS, root, vaddr) matches Ok((_, _, g)) && g == PAGE_SIZE as u64,
    ensures
        match spec_lookup_level(pool0, TL0_ADDR_BITS, root, vaddr) {
            Ok((t, i, g)) => {
                let d = pool0.word(t, i);
                let marked = (d & !TT_PERMISSIONS_MASK) | TT_COPY_ON_WRITE_FLAG | TT_READ_ONLY_FLAG;
                let pool1 = pool0.set_word(t, i, marked);
                let writable = (marked & !(TT_PERMISSIONS_MASK | TT_COPY_ON_WRITE_FLAG)) | TT_READ_WRITE_FLAG;
                let pool2 = pool1.set_word(t, i, writable);
                &&& spec_lookup_level_mut(pool0, TL0_ADDR_BITS, root, vaddr, false)
                    == (Ok::<(u64, int, u64), KernelError>((t, i, g)), pool0)
                &&& spec_lookup_level_mut(pool1, TL0_ADDR_BITS, root, vaddr, false)
                    == (Ok::<(u64, int, u64), KernelError>((t, i, g)), pool1)
                &&& spec_lookup_level_mut(pool2, TL0_ADDR_BITS, root, vaddr, false)
                    == (Ok::<(u64, int, u64), KernelError>((t, i, g)), pool2)
                &&& pool1.word(t, i) & TT_COPY_ON_WRITE_FLAG == TT_COPY_ON_WRITE_FLAG
                &&& spec_translate(pool0, root, vaddr) == Ok::<u64, KernelError>(writable & TT_BLOCK_MASK)
                &&& writable & TT_PERMISSIONS_MASK == TT_READ_WRITE_FLAG
                &&& pool2.word(t, i) & TT_COPY_ON_WRITE_FLAG != TT_COPY_ON_WRITE_FLAG
                &&& (pool2.word(t, i) & !(TT_PERMISSIONS_MASK | TT_COPY_ON_WRITE_FLAG)) | TT_READ_WRITE_FLAG == writable
            },
            Err(_) => true,
        },
{
    lemma_lookup_location(pool0, TL0_ADDR_BITS, root, vaddr);
    lemma_lookup_mut_agrees(pool0, TL0_ADDR_BITS, root, vaddr, false);
    match spec_lookup_level(pool0, TL0_ADDR_BITS, root, vaddr) {
        Ok((t, i, g)) => {
            let d = pool0.word(t, i);
            let marked = (d & !TT_PERMISSIONS_MASK) | TT_COPY_ON_WRITE_FLAG | TT_READ_ONLY_FLAG;
            let pool1 = pool0.set_word(t, i, marked);
            let writable = (marked & !(TT_PERMISSIONS_MASK | TT_COPY_ON_WRITE_FLAG)) | TT_READ_WRITE_FLAG;
            let pool2 = pool1.set_word(t, i, writable);
            assert(marked & 3 == d & 3 && marked & 0x0000_ffff_ffff_f000u64 == d & 0x0000_ffff_ffff_f000u64
                && marked & 0x0400_0000_0000_0000u64 == 0x0400_0000_0000_0000u64
                && writable & 3 == d & 3 && writable & 0x0000_ffff_ffff_f000u64 == d & 0x0000_ffff_ffff_f000u64
                && writable & 0xc0u64 == 0x40u64
                && writable & 0x0400_0000_0000_0000u64 != 0x0400_0000_0000_0000u64
                && (writable & !(0xc0u64 | 0x0400_0000_0000_0000u64)) | 0x40u64 == writable) by (bit_vector)
                requires
                    marked == (d & !0xc0u64) | 0x0400_0000_0000_0000u64 | 0xc0u64,
                    writable == (marked & !(0xc0u64 | 0x0400_0000_0000_0000u64)) | 0x40u64;
            lemma_walk_ignores_flag_bits(pool0, t, i, marked, TL0_ADDR_BITS, root, vaddr);
            assert(pool1.wf() && pool1.is_page(t) && pool1.word(t, i) == marked);
            lemma_lookup_mut_agrees(pool1, TL0_ADDR_BITS, root, vaddr, false);
            lemma_walk_ignores_flag_bits(pool1, t, i, writable, TL0_ADDR_BITS, root, vaddr);
            assert(pool2.wf() && pool2.word(t, i) == writable);
            lemma_lookup_mut_agrees(pool2, TL0_ADDR_BITS, root, vaddr, false);
            assert((vaddr - vaddr % (PAGE_SIZE as u64)) as u64 == vaddr);
        },
        Err(_) => {},
    }
}

/// The walk for `vaddr` from `table` reads the descriptor at `(t, i)` at a level above the
/// last one (where it would be taken as a table or a large block).
pub open spec fn walk_reads_above(pool: PagePoolView, addr_bits: usize, table: u64, vaddr: u64, t: u64, i: int) -> bool
    decreases addr_bits,
{
    if !pool.is_page(table) || addr_bits <= 12 {
        false
    } else {
        let index = spec_table_index(addr_bits, vaddr);
        let desc = pool.word(table, index);
        ||| PagePoolView::word_pos(table, index) == PagePoolView::word_pos(t, i)
        ||| (!spec_is_block(addr_bits, desc)
            && walk_reads_above(pool, (addr_bits - 9) as usize, desc & TT_TABLE_MASK, vaddr, t, i))
    }
}

/// A walk that may allocate takes the same path as the read-only walk where that one finds a
/// block, allocating nothing.
pub proof fn lemma_lookup_mut_agrees(pool: PagePoolView, addr_bits: usize, table: u64, vaddr: u64, alloc: bool)
    requires
        spec_lookup_level(pool, addr_bits, table, vaddr) is Ok,
    ensures
        spec_lookup_level_mut(pool, addr_bits, table, vaddr, alloc) == (spec_lookup_level(pool, addr_bits, table, vaddr), pool),
    decreases addr_bits,
{
    let index = spec_table_index(addr_bits, vaddr);
    let desc = pool.word(table, index);
    if !spec_is_block(addr_bits, desc) && addr_bits > 12 {
        lemma_lookup_mut_agrees(pool, (addr_bits - 9) as usize, desc & TT_TABLE_MASK, vaddr, alloc);
    }
}

/// Changing the page descriptor where a walk ends, keeping its type, leaves the walk ending
/// there, when the walk reads that place at no level above.
proof fn lemma_walk_after_leaf_update(pool: PagePoolView, addr_bits: usize, table: u64, vaddr: u64,
    t: u64, i: int, g: u64, new_desc: u64)
    requires
        pool.wf(),
        pool.is_page(t),
        0 <= i < PAGE_WORDS,
        spec_lookup_level(pool, addr_bits, table, vaddr) == Ok::<(u64, int, u64), KernelError>((t, i, g)),
        !walk_reads_above(pool, addr_bits, table, vaddr, t, i),
        new_desc & TT_TYPE_MASK == pool.word(t, i) & TT_TYPE_MASK,
    ensures
        spec_lookup_level(pool.set_word(t, i, new_desc), addr_bits, table, vaddr)
            == Ok::<(u64, int, u64), KernelError>((t, i, g)),
    decreases addr_bits,
{
    let pool2 = pool.set_word(t, i, new_desc);
    lemma_page_addr_bound(pool, t);
    lemma_page_addr_bound(pool, table);
    let index = spec_table_index(addr_bits, vaddr);
    assert(0 <= index < PAGE_WORDS) by {
        let x = vaddr >> addr_bits as u64;
        assert(x & 0x1ff <= 0x1ff) by (bit_vector);
    }
    let d1 = pool.word(table, index);
    let d2 = pool2.word(table, index);
    if PagePoolView::word_pos(table, index) == PagePoolView::word_pos(t, i) {
        assert(d2 == new_desc);
        assert(d1 == pool.word(t, i));
        assert(spec_descriptor_type(d2) == spec_descriptor_type(d1));
    } else {
        assert(d2 == d1);
        if !spec_is_block(addr_bits, d1) && addr_bits > 12 {
            lemma_walk_after_leaf_update(pool, (addr_bits - 9) as usize, d1 & TT_TABLE_MASK, vaddr, t, i, g, new_desc);
        }
    }
}

/// Giving a mapped page a new physical address: when the walk for the page at `vaddr` ends at
/// a page descriptor (read at no level above), `update_page_addr` writes that descriptor
/// without allocating, and every address of the page then translates into the page at `paddr`.
pub proof fn lemma_update_page_addr_translates(pool: PagePoolView, root: u64, vaddr: u64, paddr: u64, offset: u64)
    requires
        pool.wf(),
        vaddr % (PAGE_SIZE as u64) == 0,
        offset < PAGE_SIZE,
        spec_lookup_level(pool, TL0_ADDR_BITS, root, vaddr) matches Ok((t, i, g))
            && g == PAGE_SIZE as u64 && !walk_reads_above(pool, TL0_ADDR_BITS, root, vaddr, t, i),
    ensures
        ({
            let walk = spec_lookup_level_mut(pool, TL0_ADDR_BITS, root, vaddr, true);
            &&& walk.1 == pool
            &&& walk.0 == spec_lookup_level(pool, TL0_ADDR_BITS, root, vaddr)
            &&& match walk.0 {
                Ok((t, i, g)) => spec_translate(
                    pool.set_word(t, i, (pool.word(t, i) & !TT_BLOCK_MASK) | (paddr & TT_BLOCK_MASK) | TT_ACCESS_FLAG),
                    root, (vaddr + offset) as u64)
                    == Ok::<u64, KernelError>(((paddr & TT_BLOCK_MASK) + offset) as u64),
                Err(_) => true,
            }
        }),
{
    lemma_lookup_mut_agrees(pool, TL0_ADDR_BITS, root, vaddr, true);
    lemma_lookup_location(pool, TL0_ADDR_BITS, root, vaddr);
    match spec_lookup_level(pool, TL0_ADDR_BITS, root, vaddr) {
        Ok((t, i, g)) => {
            let d = pool.word(t, i);
            let new_desc = (d & !TT_BLOCK_MASK) | (paddr & TT_BLOCK_MASK) | TT_ACCESS_FLAG;
            assert(new_desc & 3 == d & 3 && new_desc & 0x0000_ffff_ffff_f000u64 == paddr & 0x0000_ffff_ffff_f000u64
                && paddr & 0x0000_ffff_ffff_f000u64 <= 0x0000_ffff_ffff_f000u64) by (bit_vector)
                requires new_desc == (d & !0x0000_ffff_ffff_f000u64) | (paddr & 0x0000_ffff_ffff_f000u64) | 0x400u64;
            lemma_walk_after_leaf_update(pool, TL0_ADDR_BITS, root, vaddr, t, i, g, new_desc);
            assert(vaddr + offset <= u64::MAX) by (bit_vector)
                requires vaddr % 4096 == 0, offset < 4096;
            let v2 = (vaddr + offset) as u64;
            assert(v2 % 4096 == offset && v2 - v2 % 4096 == vaddr) by (bit_vector)
                requires v2 == vaddr + offset, vaddr % 4096 == 0, offset < 4096;
            assert(pool.set_word(t, i, new_desc).word(t, i) == new_desc);
        },
        Err(_) => {},
    }
}

/// A successful walk ends at a descriptor of a page of the pool.
pub proof fn lemma_lookup_location(pool: PagePoolView, addr_bits: usize, table: u64, vaddr: u64)
    ensures
        match spec_lookup_level(pool, addr_bits, table, vaddr) {
            Ok((t, i, g)) => pool.is_page(t) && 0 <= i < PAGE_WORDS,
            Err(_) => true,
        },
    decreases addr_bits,
{
    if pool.is_page(table) {
        let index = spec_table_index(addr_bits, vaddr);
        let x = vaddr >> addr_bits as u64;
        assert(x & 0x1ff <= 0x1ff) by (bit_vector);
        let desc = pool.word(table, index);
        if !spec_is_block(addr_bits, desc) && addr_bits > 12 {
            lemma_lookup_location(pool, (addr_bits - 9) as usize, desc & TT_TABLE_MASK, vaddr);
        }
    }
}

// ---------------------------------------------------------------------------------------
// Visiting every descriptor of a range

/// The highest end of a range that the walkers accept (so that stepping past it cannot
/// overflow an address).
pub const MAX_RANGE_END: u64 = 0xffff_ff00_0000_0000;

/// Where the pages of a mapping come from.
#[derive(Clone, Copy)]
pub enum MapBlock {
    /// The range maps the existing memory starting at `paddr`.
    Existing { start: u64, paddr: u64 },
    /// The range maps pages from the pool (or, when unallocated, no page yet).
    Paged,
}

/// Maps the pages of a range into empty descriptors.
#[derive(Clone, Copy)]
pub struct MapRange {
    pub mtype: MemoryType,
    pub flags: u64,
    pub map_block: MapBlock,
}

/// Unmaps the pages of a range, dropping the references to them and to emptied tables.
#[derive(Clone, Copy)]
pub struct UnmapRange {}

/// Lists the descriptors of a table (kept for inspecting tables).
pub struct PrintTable {}

/// The visitor that a walk over one table applies to each descriptor.
#[derive(Clone, Copy)]
pub enum TableVisitor {
    Mapper(MapRange),
    Unmapper(UnmapRange),
}

impl MapRange {
    /// A visitor that maps memory of type `mtype` with permissions `access`.
    pub fn new(mtype: MemoryType, access: MemoryPermissions, map_block: MapBlock) -> (r: Self)
        ensures
            r.mtype == mtype,
            r.flags == spec_memory_type_flags(mtype) | spec_memory_permissions_flags(access),
            r.map_block == map_block,
    {
        let flags = memory_type_flags(mtype) | memory_permissions_flags(access);
        MapRange { mtype, flags, map_block }
    }
}

impl UnmapRange {
    /// A visitor that unmaps memory.
    pub fn new() -> (r: Self) {
        UnmapRange {}
    }
}

impl PrintTable {
    /// A visitor that lists descriptors.
    pub fn new() -> (r: Self) {
        PrintTable {}
    }
}

/// The page that a mapping places at `vaddr` in a granule of size `g`, if any.
pub open spec fn spec_map_block(m: MapRange, pool: PagePoolView, vaddr: u64, g: u64)
    -> (Result<Option<u64>, KernelError>, PagePoolView)
{
    match m.map_block {
        MapBlock::Existing { start, paddr } => (Ok(Some((paddr + (vaddr - start)) as u64)), pool),
        MapBlock::Paged => {
            if g != PAGE_SIZE as u64 {
                (Ok(None), pool)
            } else if m.mtype == MemoryType::Allocated {
                let (r, p) = pool.alloc_result();
                match r {
                    Ok(a) => (Ok(Some(a)), p),
                    Err(e) => (Err(e), p),
                }
            } else {
                (Ok(Some(0)), pool)
            }
        },
    }
}

/// A visitor's action on a block descriptor.
pub open spec fn spec_visit_granuale(v: TableVisitor, pool: PagePoolView, table: u64, index: int)
    -> (Result<(), KernelError>, PagePoolView)
{
    match v {
        TableVisitor::Mapper(_) => (Err(KernelError::AddressAlreadyMapped), pool),
        TableVisitor::Unmapper(_) => {
            let paddr = pool.word(table, index) & TT_BLOCK_MASK;
            let p1 = if paddr != 0 { pool.drop_ref(paddr) } else { pool };
            (Ok(()), p1.set_word(table, index, 0))
        },
    }
}

/// A visitor's action after the table below a table descriptor was walked.
pub open spec fn spec_visit_table_after(v: TableVisitor, pool: PagePoolView, table: u64, index: int)
    -> (Result<(), KernelError>, PagePoolView)
{
    match v {
        TableVisitor::Mapper(_) => (Ok(()), pool),
        TableVisitor::Unmapper(_) => {
            let sub = pool.word(table, index) & TT_TABLE_MASK;
            if pool.is_page(sub) && spec_table_is_empty(pool, sub) {
                (Ok(()), pool.drop_ref(sub).set_word(table, index, 0))
            } else {
                (Ok(()), pool)
            }
        },
    }
}

/// A visitor's action on an empty descriptor.
pub open spec fn spec_visit_empty(v: TableVisitor, pool: PagePoolView, addr_bits: usize, table: u64, index: int, vaddr: u64, end: u64)
    -> (Result<(), KernelError>, PagePoolView)
    decreases addr_bits, 0int,
{
    match v {
        TableVisitor::Unmapper(_) => (Err(KernelError::AddressUnmapped), pool),
        TableVisitor::Mapper(m) => {
            let g = spec_granule(addr_bits);
            if addr_bits != 12 {
                if m.mtype != MemoryType::Unallocated || vaddr + g > end {
                    let (r1, p1) = spec_ensure_table_entry(pool, table, index);
                    if r1 is Err {
                        (r1, p1)
                    } else {
                        let sub = p1.word(table, index) & TT_TABLE_MASK;
                        if !p1.is_page(sub) {
                            (Err(KernelError::CorruptTranslationTable), p1)
                        } else if addr_bits > 12 && valid_level(addr_bits) {
                            spec_walk_table(v, p1, (addr_bits - 9) as usize, sub, vaddr, end,
                                spec_table_index((addr_bits - 9) as usize, vaddr))
                        } else {
                            (Ok(()), p1)
                        }
                    }
                } else {
                    (Ok(()), pool.set_word(table, index, m.flags | TT2_DESCRIPTOR_TABLE))
                }
            } else {
                let (r, p1) = spec_map_block(m, pool, vaddr, g);
                match r {
                    Err(e) => (Err(e), p1),
                    Ok(None) => (Ok(()), p1),
                    Ok(Some(paddr)) => (Ok(()), p1.set_word(table, index,
                        (paddr & TT_BLOCK_MASK) | m.flags | spec_block_type(g))),
                }
            }
        },
    }
}

/// The walk over the descriptors of `table` from `index` onwards, for the addresses from
/// `vaddr` up to `end`, applying the visitor to each: the result and the pool afterwards.
pub open spec fn spec_walk_table(v: TableVisitor, pool: PagePoolView, addr_bits: usize, table: u64, vaddr: u64, end: u64, index: int)
    -> (Result<(), KernelError>, PagePoolView)
    decreases addr_bits, 513 - index,
{
    if !(vaddr < end && 0 <= index < PAGE_WORDS) || !valid_level(addr_bits) {
        (Ok(()), pool)
    } else {
        let g = spec_granule(addr_bits);
        let d = pool.word(table, index);
        let (r, p1) = if spec_is_block(addr_bits, d) {
            spec_visit_granuale(v, pool, table, index)
        } else if spec_is_table(addr_bits, d) {
            let (r1, q1) = if pool.is_page(d & TT_TABLE_MASK) {
                spec_walk_table(v, pool, (addr_bits - 9) as usize, d & TT_TABLE_MASK, vaddr, end,
                    spec_table_index((addr_bits - 9) as usize, vaddr))
            } else {
                (Ok(()), pool)
            };
            if r1 is Err {
                (r1, q1)
            } else {
                spec_visit_table_after(v, q1, table, index)
            }
        } else if spec_is_empty(d) {
            spec_visit_empty(v, pool, addr_bits, table, index, vaddr, end)
        } else {
            (Err(KernelError::CorruptTranslationTable), pool)
        };
        if r is Err {
            (r, p1)
        } else {
            spec_walk_table(v, p1, addr_bits, table, (vaddr + g) as u64, end, index + 1)
        }
    }
}

/// The pages present before a change to the pool are still present after it.
pub open spec fn keeps_pages(before: PagePoolView, after: PagePoolView) -> bool {
    &&& after.wf()
    &&& before.num_pages() <= after.num_pages()
}

/// What the visitor's map function places at `vaddr`.
pub fn map_block_at(m: &MapRange, pages: &mut PagePool, vaddr: VirtualAddress, g: u64)
    -> (r: Result<Option<PhysicalAddress>, KernelError>)
    requires
        old(pages)@.wf(),
        match m.map_block {
            MapBlock::Existing { start, paddr } => start <= vaddr.0 && paddr + (vaddr.0 - start) <= u64::MAX,
            MapBlock::Paged => true,
        },
    ensures
        keeps_pages(old(pages)@, final(pages)@),
        ({
            let (sr, sp) = spec_map_block(*m, old(pages)@, vaddr.0, g);
            &&& final(pages)@ == sp
            &&& match r {
                Ok(Some(p)) => sr == Ok::<Option<u64>, KernelError>(Some(p.0)),
                Ok(None) => sr == Ok::<Option<u64>, KernelError>(None),
                Err(e) => sr == Err::<Option<u64>, KernelError>(e),
            }
        }),
{
    match m.map_block {
        MapBlock::Existing { start, paddr } => {
            let voffset = vaddr.0 - start;
            Ok(Some(PhysicalAddress(paddr + voffset)))
        },
        MapBlock::Paged => {
            if g != PAGE_SIZE as u64 {
                Ok(None)
            } else if m.mtype == MemoryType::Allocated {
                let page = pages.alloc_page_zeroed()?;
                Ok(Some(page))
            } else {
                Ok(Some(PhysicalAddress(0)))
            }
        },
    }
}

/// The facts about a level's index and step that the walkers rely on.
pub proof fn lemma_level_facts(addr_bits: usize, vaddr: u64)
    requires
        valid_level(addr_bits),
    ensures
        0 <= spec_table_index(addr_bits, vaddr) < PAGE_WORDS,
        addr_bits > 12 ==> valid_level((addr_bits - 9) as usize),
        spec_granule(addr_bits) <= 0x80_0000_0000,
{
    let x = vaddr >> addr_bits as u64;
    assert(x & 0x1ff <= 0x1ff) by (bit_vector);
}

/// The visitor's action on a block descriptor.
pub fn visit_granuale(v: &TableVisitor, pages: &mut PagePool, table: PhysicalAddress, index: usize)
    -> (r: Result<(), KernelError>)
    requires
        old(pages)@.wf(),
        old(pages)@.is_page(table.0),
        index < PAGE_WORDS,
    ensures
        keeps_pages(old(pages)@, final(pages)@),
        (r, final(pages)@) == spec_visit_granuale(*v, old(pages)@, table.0, index as int),
{
    match v {
        TableVisitor::Mapper(_) => Err(KernelError::AddressAlreadyMapped),
        TableVisitor::Unmapper(_) => {
            let paddr = block_ptr(pages, table, index);
            if paddr.0 != 0 {
                pages.free_page(paddr);
            }
            pages.write_word(table.0, index, 0);
            Ok(())
        },
    }
}

/// The visitor's action after the table below a table descriptor was walked.
pub fn visit_table_after(v: &TableVisitor, pages: &mut PagePool, table: PhysicalAddress, index: usize)
    -> (r: Result<(), KernelError>)
    requires
        old(pages)@.wf(),
        old(pages)@.is_page(table.0),
        index < PAGE_WORDS,
    ensures
        keeps_pages(old(pages)@, final(pages)@),
        (r, final(pages)@) == spec_visit_table_after(*v, old(pages)@, table.0, index as int),
{
    match v {
        TableVisitor::Mapper(_) => Ok(()),
        TableVisitor::Unmapper(_) => {
            let sub = table_ptr(pages, table, index);
            if pages.is_page(sub.0) {
                if table_is_empty(pages, sub) {
                    pages.free_page(sub);
                    pages.write_word(table.0, index, 0);
                }
            }
            Ok(())
        },
    }
}

/// The visitor's action on an empty descriptor.
pub fn visit_empty(v: &TableVisitor, pages: &mut PagePool, addr_bits: usize, table: PhysicalAddress, index: usize,
    vaddr: VirtualAddress, end: VirtualAddress) -> (r: Result<(), KernelError>)
    requires
        old(pages)@.wf(),
        old(pages)@.is_page(table.0),
        index < PAGE_WORDS,
        valid_level(addr_bits),
        vaddr.0 < end.0,
        end.0 <= MAX_RANGE_END,
        match *v {
            TableVisitor::Mapper(m) => match m.map_block {
                MapBlock::Existing { start, paddr } => start <= vaddr.0 && paddr + (end.0 - start) <= u64::MAX,
                MapBlock::Paged => true,
            },
            TableVisitor::Unmapper(_) => true,
        },
    ensures
        keeps_pages(old(pages)@, final(pages)@),
        (r, final(pages)@) == spec_visit_empty(*v, old(pages)@, addr_bits, table.0, index as int, vaddr.0, end.0),
    decreases addr_bits, 0int,
{
    match v {
        TableVisitor::Unmapper(_) => Err(KernelError::AddressUnmapped),
        TableVisitor::Mapper(m) => {
            let granuale_size = granule_size(addr_bits);
            if addr_bits != 12 {
                if m.mtype != MemoryType::Unallocated || vaddr.0 + granuale_size > end.0 {
                    ensure_table_entry(pages, table, index)?;
                    let subtable = table_ptr(pages, table, index);
                    if !pages.is_page(subtable.0) {
                        return Err(KernelError::CorruptTranslationTable);
                    }
                    proof { lemma_level_facts(addr_bits, vaddr.0); }
                    walk_table(v, pages, addr_bits - 9, subtable, vaddr, end)
                } else {
                    pages.write_word(table.0, index, m.flags | TT2_DESCRIPTOR_TABLE);
                    Ok(())
                }
            } else {
                let mapped = map_block_at(m, pages, vaddr, granuale_size)?;
                if let Some(paddr) = mapped {
                    pages.write_word(table.0, index, (paddr.0 & TT_BLOCK_MASK) | m.flags | block_type(granuale_size));
                }
                Ok(())
            }
        },
    }
}

/// Walks the descriptors of `table` for the addresses from `vaddr` up to `end`, applying the
/// visitor to each.
pub fn walk_table(v: &TableVisitor, pages: &mut PagePool, addr_bits: usize, table: PhysicalAddress,
    vaddr: VirtualAddress, end: VirtualAddress) -> (r: Result<(), KernelError>)
    requires
        old(pages)@.wf(),
        old(pages)@.is_page(table.0),
        valid_level(addr_bits),
        end.0 <= MAX_RANGE_END,
        match *v {
            TableVisitor::Mapper(m) => match m.map_block {
                MapBlock::Existing { start, paddr } => start <= vaddr.0 && paddr + (end.0 - start) <= u64::MAX,
                MapBlock::Paged => true,
            },
            TableVisitor::Unmapper(_) => true,
        },
    ensures
        keeps_pages(old(pages)@, final(pages)@),
        (r, final(pages)@) == spec_walk_table(*v, old(pages)@, addr_bits, table.0, vaddr.0, end.0,
            spec_table_index(addr_bits, vaddr.0)),
    decreases addr_bits, 1int,
{
    let granuale_size = granule_size(addr_bits);
    let mut index = table_index_from_vaddr(addr_bits, vaddr);
    let mut cur = vaddr;
    let ghost vaddr0 = cur.0;
    let ghost index0 = index as int;
    proof { lemma_level_facts(addr_bits, cur.0); }
    while cur.0 < end.0 && index < table_entries()
        invariant
            pages@.wf(),
            keeps_pages(old(pages)@, pages@),
            pages@.is_page(table.0),
            valid_level(addr_bits),
            granuale_size == spec_granule(addr_bits),
            granuale_size <= 0x80_0000_0000,
            end.0 <= MAX_RANGE_END,
            vaddr0 <= cur.0,
            vaddr0 == vaddr.0,
            index0 == spec_table_index(addr_bits, vaddr.0),
            index <= PAGE_WORDS,
            match *v {
                TableVisitor::Mapper(m) => match m.map_block {
                    MapBlock::Existing { start, paddr } => start <= vaddr0 && paddr + (end.0 - start) <= u64::MAX,
                    MapBlock::Paged => true,
                },
                TableVisitor::Unmapper(_) => true,
            },
            spec_walk_table(*v, old(pages)@, addr_bits, table.0, vaddr0, end.0, index0)
                == spec_walk_table(*v, pages@, addr_bits, table.0, cur.0, end.0, index as int),
        decreases PAGE_WORDS - index,
    {
        let ghost before = pages@;
        let res = if is_block(addr_bits, pages, table, index) {
            visit_granuale(v, pages, table, index)
        } else if is_table(addr_bits, pages, table, index) {
            let subtable = table_ptr(pages, table, index);
            let r1 = if pages.is_page(subtable.0) {
                proof { lemma_level_facts(addr_bits, cur.0); }
                walk_table(v, pages, addr_bits - 9, subtable, cur, end)
            } else {
                Ok(())
            };
            if r1.is_err() {
                r1
            } else {
                visit_table_after(v, pages, table, index)
            }
        } else if is_empty(pages, table, index) {
            visit_empty(v, pages, addr_bits, table, index, cur, end)
        } else {
            Err(KernelError::CorruptTranslationTable)
        };
        if res.is_err() {
            assert(spec_walk_table(*v, before, addr_bits, table.0, cur.0, end.0, index as int) == (res, pages@));
            return res;
        }

        cur = VirtualAddress(cur.0 + granuale_size);
        index += 1;
    }
    Ok(())
}

impl TranslationTable {
    /// Maps `len` bytes of the existing memory at `paddr` to the virtual addresses from `start`.
    pub fn map_existing_range(&mut self, access: MemoryPermissions, start: VirtualAddress, paddr: PhysicalAddress,
        len: usize, pages: &mut PagePool) -> (r: Result<(), KernelError>)
        requires
            old(pages)@.wf(),
            old(pages)@.is_page(old(self).0),
            spec_check_vaddr_and_usize(start.0, len) is Ok ==> start.0 + len <= MAX_RANGE_END
                && paddr.0 + len <= u64::MAX,
        ensures
            *final(self) == *old(self),
            keeps_pages(old(pages)@, final(pages)@),
            match spec_check_vaddr_and_usize(start.0, len) {
                Err(e) => r == Err::<(), KernelError>(e) && final(pages)@ == old(pages)@,
                Ok(_) => (r, final(pages)@) == spec_walk_table(
                    TableVisitor::Mapper(MapRange {
                        mtype: MemoryType::Existing,
                        flags: spec_memory_type_flags(MemoryType::Existing) | spec_memory_permissions_flags(access),
                        map_block: MapBlock::Existing { start: start.0, paddr: paddr.0 },
                    }),
                    old(pages)@, TL0_ADDR_BITS, old(self).0, start.0, (start.0 + len) as u64,
                    spec_table_index(TL0_ADDR_BITS, start.0)),
            },
    {
        check_vaddr_and_usize(start, len)?;
        let end = VirtualAddress(start.0 + len as u64);
        let mapper = TableVisitor::Mapper(MapRange::new(MemoryType::Existing, access,
            MapBlock::Existing { start: start.0, paddr: paddr.0 }));
        walk_table(&mapper, pages, TL0_ADDR_BITS, PhysicalAddress(self.0), start, end)
    }

    /// Maps `len` bytes of pages of type `mtype` to the virtual addresses from `start`.
    pub fn map_paged_range(&mut self, mtype: MemoryType, access: MemoryPermissions, start: VirtualAddress,
        len: usize, pages: &mut PagePool) -> (r: Result<(), KernelError>)
        requires
            old(pages)@.wf(),
            old(pages)@.is_page(old(self).0),
            spec_check_vaddr_and_usize(start.0, len) is Ok ==> start.0 + len <= MAX_RANGE_END,
        ensures
            *final(self) == *old(self),
            keeps_pages(old(pages)@, final(pages)@),
            match spec_check_vaddr_and_usize(start.0, len) {
                Err(e) => r == Err::<(), KernelError>(e) && final(pages)@ == old(pages)@,
                Ok(_) => (r, final(pages)@) == spec_walk_table(
                    TableVisitor::Mapper(MapRange {
                        mtype: mtype,
                        flags: spec_memory_type_flags(mtype) | spec_memory_permissions_flags(access),
                        map_block: MapBlock::Paged,
                    }),
                    old(pages)@, TL0_ADDR_BITS, old(self).0, start.0, (start.0 + len) as u64,
                    spec_table_index(TL0_ADDR_BITS, start.0)),
            },
    {
        check_vaddr_and_usize(start, len)?;
        let end = VirtualAddress(start.0 + len as u64);
        let mapper = TableVisitor::Mapper(MapRange::new(mtype, access, MapBlock::Paged));
        walk_table(&mapper, pages, TL0_ADDR_BITS, PhysicalAddress(self.0), start, end)
    }

    /// Unmaps the `len` bytes from `start`, dropping the references to their pages.
    pub fn unmap_range(&mut self, start: VirtualAddress, len: usize, pages: &mut PagePool) -> (r: Result<(), KernelError>)
        requires
            old(pages)@.wf(),
            old(pages)@.is_page(old(self).0),
            spec_check_vaddr_and_usize(start.0, len) is Ok ==> start.0 + len <= MAX_RANGE_END,
        ensures
            *final(self) == *old(self),
            keeps_pages(old(pages)@, final(pages)@),
            match spec_check_vaddr_and_usize(start.0, len) {
                Err(e) => r == Err::<(), KernelError>(e) && final(pages)@ == old(pages)@,
                Ok(_) => (r, final(pages)@) == spec_walk_table(TableVisitor::Unmapper(UnmapRange {}),
                    old(pages)@, TL0_ADDR_BITS, old(self).0, start.0, (start.0 + len) as u64,
                    spec_table_index(TL0_ADDR_BITS, start.0)),
            },
    {
        check_vaddr_and_usize(start, len)?;
        let end = VirtualAddress(start.0 + len as u64);
        let visitor = TableVisitor::Unmapper(UnmapRange::new());
        walk_table(&visitor, pages, TL0_ADDR_BITS, PhysicalAddress(self.0), start, end)
    }
}

// ---------------------------------------------------------------------------------------
// Visiting two tables over the same range

/// How a copied mapping refers to the parent's pages.
#[derive(Clone, Copy)]
pub enum CopyBlock {
    /// The child shares the parent's pages, with descriptors carrying `flags`.
    Duplicate { flags: u64 },
    /// Both parent and child map the pages read-only and copy-on-write (`flags`).
    CopyOnWrite { flags: u64 },
}

/// Copies the mappings of the pages of a range from a parent table to a child table.
#[derive(Clone, Copy)]
pub struct CopyRange {
    pub map_block: CopyBlock,
}

impl CopyRange {
    /// A visitor that copies mappings as `map_block` says.
    pub fn new(map_block: CopyBlock) -> (r: Self)
        ensures
            r.map_block == map_block,
    {
        CopyRange { map_block }
    }
}

/// The page and flags for the child's descriptor copied from the parent's descriptor
/// `index` (which the copy-on-write variant also changes), with the pool afterwards.
pub open spec fn spec_copy_block(c: CopyRange, pool: PagePoolView, parent: u64, index: int, g: u64)
    -> (Result<(u64, u64), KernelError>, PagePoolView)
{
    let d = pool.word(parent, index);
    let page = d & TT_BLOCK_MASK;
    if g != PAGE_SIZE as u64 {
        (Err(KernelError::UnexpectedGranualeSize), pool)
    } else {
        match c.map_block {
            CopyBlock::Duplicate { flags } => {
                if page == 0 {
                    (Ok((0u64, flags)), pool)
                } else {
                    (Ok((page, TT_ACCESS_FLAG | flags)), pool.add_ref(page))
                }
            },
            CopyBlock::CopyOnWrite { flags } => {
                if page == 0 {
                    (Ok((0u64, flags)), pool)
                } else {
                    let p1 = pool.set_word(parent, index, (d & !TT_PERMISSIONS_MASK) | flags);
                    (Ok((page, TT_ACCESS_FLAG | flags)), p1.add_ref(page))
                }
            },
        }
    }
}

/// The copy of a block descriptor of the parent into the child.
pub open spec fn spec_copy_granuale(c: CopyRange, pool: PagePoolView, addr_bits: usize, parent: u64, child: u64, index: int)
    -> (Result<(), KernelError>, PagePoolView)
{
    let g = spec_granule(addr_bits);
    let (r, p1) = spec_copy_block(c, pool, parent, index, g);
    match r {
        Err(e) => (Err(e), p1),
        Ok((paddr, flags)) => (Ok(()), p1.set_word(child, index, (paddr & TT_BLOCK_MASK) | flags | spec_block_type(g))),
    }
}

/// Before walking below a table descriptor of the parent: the child gets a table there too,
/// or, where the parent's table is not yet made, a descriptor with the parent's flags.
pub open spec fn spec_copy_table_before(pool: PagePoolView, parent: u64, child: u64, index: int)
    -> (Result<(), KernelError>, PagePoolView)
{
    let d = pool.word(parent, index);
    if pool.is_page(d & TT_TABLE_MASK) {
        spec_ensure_table_entry(pool, child, index)
    } else {
        (Ok(()), pool.set_word(child, index, (d & (TT_PERMISSIONS_MASK | TT_COPY_ON_WRITE_FLAG)) | TT2_DESCRIPTOR_TABLE))
    }
}

/// The walk over the descriptors of a parent and a child table from `index` onwards, for the
/// addresses from `vaddr` up to `end`: the result and the pool afterwards.
pub open spec fn spec_walk_two_tables(c: CopyRange, pool: PagePoolView, addr_bits: usize, parent: u64, child: u64,
    vaddr: u64, end: u64, index: int) -> (Result<(), KernelError>, PagePoolView)
    decreases addr_bits, 513 - index,
{
    if !(vaddr < end && 0 <= index < PAGE_WORDS) || !valid_level(addr_bits) {
        (Ok(()), pool)
    } else {
        let g = spec_granule(addr_bits);
        let d = pool.word(parent, index);
        let (r, p1) = if spec_is_block(addr_bits, d) {
            spec_copy_granuale(c, pool, addr_bits, parent, child, index)
        } else if spec_is_table(addr_bits, d) {
            let (r0, p0) = spec_copy_table_before(pool, parent, child, index);
            if r0 is Err {
                (r0, p0)
            } else {
                let psub = p0.word(parent, index) & TT_TABLE_MASK;
                let csub = p0.word(child, index) & TT_TABLE_MASK;
                if p0.is_page(psub) && p0.is_page(csub) {
                    spec_walk_two_tables(c, p0, (addr_bits - 9) as usize, psub, csub, vaddr, end,
                        spec_table_index((addr_bits - 9) as usize, vaddr))
                } else {
                    (Ok(()), p0)
                }
            }
        } else if spec_is_empty(d) {
            (Err(KernelError::AddressUnmapped), pool)
        } else {
            (Err(KernelError::CorruptTranslationTable), pool)
        };
        if r is Err {
            (r, p1)
        } else {
            spec_walk_two_tables(c, p1, addr_bits, parent, child, (vaddr + g) as u64, end, index + 1)
        }
    }
}

/// Copies block descriptor `index` of the parent into the child.
pub fn copy_granuale(c: &CopyRange, pages: &mut PagePool, addr_bits: usize, parent: PhysicalAddress,
    child: PhysicalAddress, index: usize) -> (r: Result<(), KernelError>)
    requires
        old(pages)@.wf(),
        old(pages)@.is_page(parent.0),
        old(pages)@.is_page(child.0),
        index < PAGE_WORDS,
        valid_level(addr_bits),
    ensures
        keeps_pages(old(pages)@, final(pages)@),
        (r, final(pages)@) == spec_copy_granuale(*c, old(pages)@, addr_bits, parent.0, child.0, index as int),
{
    let granuale_size = granule_size(addr_bits);
    let d = pages.read_word(parent.0, index);
    let page = d & TT_BLOCK_MASK;
    let (paddr, flags) = if granuale_size != PAGE_SIZE as u64 {
        return Err(KernelError::UnexpectedGranualeSize);
    } else {
        match c.map_block {
            CopyBlock::Duplicate { flags } => {
                if page == 0 {
                    (0u64, flags)
                } else {
                    let p = pages.ref_page(PhysicalAddress(page));
                    (p.0, TT_ACCESS_FLAG | flags)
                }
            },
            CopyBlock::CopyOnWrite { flags } => {
                if page == 0 {
                    (0u64, flags)
                } else {
                    pages.write_word(parent.0, index, (d & !TT_PERMISSIONS_MASK) | flags);
                    let p = pages.ref_page(PhysicalAddress(page));
                    (p.0, TT_ACCESS_FLAG | flags)
                }
            },
        }
    };
    pages.write_word(child.0, index, (paddr & TT_BLOCK_MASK) | flags | block_type(granuale_size));
    Ok(())
}

/// Gives the child a table below descriptor `index` where the parent has one.
pub fn copy_table_before(pages: &mut PagePool, parent: PhysicalAddress, child: PhysicalAddress, index: usize)
    -> (r: Result<(), KernelError>)
    requires
        old(pages)@.wf(),
        old(pages)@.is_page(parent.0),
        old(pages)@.is_page(child.0),
        index < PAGE_WORDS,
    ensures
        keeps_pages(old(pages)@, final(pages)@),
        (r, final(pages)@) == spec_copy_table_before(old(pages)@, parent.0, child.0, index as int),
{
    let psub = table_ptr(pages, parent, index);
    if pages.is_page(psub.0) {
        ensure_table_entry(pages, child, index)
    } else {
        let d = pages.read_word(parent.0, index);
        pages.write_word(child.0, index, (d & (TT_PERMISSIONS_MASK | TT_COPY_ON_WRITE_FLAG)) | TT2_DESCRIPTOR_TABLE);
        Ok(())
    }
}

/// Walks the descriptors of a parent and a child table for the addresses from `vaddr` up to
/// `end`, copying the parent's mappings into the child.
pub fn walk_two_tables(c: &CopyRange, pages: &mut PagePool, addr_bits: usize, parent: PhysicalAddress,
    child: PhysicalAddress, vaddr: VirtualAddress, end: VirtualAddress) -> (r: Result<(), KernelError>)
    requires
        old(pages)@.wf(),
        old(pages)@.is_page(parent.0),
        old(pages)@.is_page(child.0),
        valid_level(addr_bits),
        end.0 <= MAX_RANGE_END,
    ensures
        keeps_pages(old(pages)@, final(pages)@),
        (r, final(pages)@) == spec_walk_two_tables(*c, old(pages)@, addr_bits, parent.0, child.0, vaddr.0, end.0,
            spec_table_index(addr_bits, vaddr.0)),
    decreases addr_bits,
{
    let granuale_size = granule_size(addr_bits);
    let mut index = table_index_from_vaddr(addr_bits, vaddr);
    let mut cur = vaddr;
    let ghost index0 = index as int;
    proof { lemma_level_facts(addr_bits, cur.0); }
    while cur.0 < end.0 && index < table_entries()
        invariant
            pages@.wf(),
            keeps_pages(old(pages)@, pages@),
            pages@.is_page(parent.0),
            pages@.is_page(child.0),
            valid_level(addr_bits),
            granuale_size == spec_granule(addr_bits),
            granuale_size <= 0x80_0000_0000,
            end.0 <= MAX_RANGE_END,
            index0 == spec_table_index(addr_bits, vaddr.0),
            index <= PAGE_WORDS,
            spec_walk_two_tables(*c, old(pages)@, addr_bits, parent.0, child.0, vaddr.0, end.0, index0)
                == spec_walk_two_tables(*c, pages@, addr_bits, parent.0, child.0, cur.0, end.0, index as int),
        decreases PAGE_WORDS - index,
    {
        let ghost before = pages@;
        let res = if is_block(addr_bits, pages, parent, index) {
            copy_granuale(c, pages, addr_bits, parent, child, index)
        } else if is_table(addr_bits, pages, parent, index) {
            let r0 = copy_table_before(pages, parent, child, index);
            if r0.is_err() {
                r0
            } else {
                let psub = table_ptr(pages, parent, index);
                let csub = table_ptr(pages, child, index);
                if pages.is_page(psub.0) && pages.is_page(csub.0) {
                    proof { lemma_level_facts(addr_bits, cur.0); }
                    walk_two_tables(c, pages, addr_bits - 9, psub, csub, cur, end)
                } else {
                    Ok(())
                }
            }
        } else if is_empty(pages, parent, index) {
            Err(KernelError::AddressUnmapped)
        } else {
            Err(KernelError::CorruptTranslationTable)
        };
        if res.is_err() {
            return res;
        }

        cur = VirtualAddress(cur.0 + granuale_size);
        index += 1;
    }
    Ok(())
}

impl TranslationTable {
    /// Gives this table the mappings of `parent_table` over a range, sharing its pages.
    pub fn duplicate_paged_range(&mut self, parent_table: &mut Self, access: MemoryPermissions, start: VirtualAddress,
        len: usize, pages: &mut PagePool) -> (r: Result<(), KernelError>)
        requires
            old(pages)@.wf(),
            old(pages)@.is_page(old(self).0),
            old(pages)@.is_page(old(parent_table).0),
            spec_check_vaddr_and_usize(start.0, len) is Ok ==> start.0 + len <= MAX_RANGE_END,
        ensures
            *final(self) == *old(self),
            *final(parent_table) == *old(parent_table),
            keeps_pages(old(pages)@, final(pages)@),
            match spec_check_vaddr_and_usize(start.0, len) {
                Err(e) => r == Err::<(), KernelError>(e) && final(pages)@ == old(pages)@,
                Ok(_) => (r, final(pages)@) == spec_walk_two_tables(
                    CopyRange { map_block: CopyBlock::Duplicate {
                        flags: spec_memory_type_flags(MemoryType::Unallocated) | spec_memory_permissions_flags(access) } },
                    old(pages)@, TL0_ADDR_BITS, old(parent_table).0, old(self).0, start.0, (start.0 + len) as u64,
                    spec_table_index(TL0_ADDR_BITS, start.0)),
            },
    {
        check_vaddr_and_usize(start, len)?;
        let end = VirtualAddress(start.0 + len as u64);
        let flags = memory_type_flags(MemoryType::Unallocated) | memory_permissions_flags(access);
        let mapper = CopyRange::new(CopyBlock::Duplicate { flags });
        walk_two_tables(&mapper, pages, TL0_ADDR_BITS, PhysicalAddress(parent_table.0), PhysicalAddress(self.0), start, end)
    }

    /// Gives this table the mappings of `parent_table` over a range, with both mapping the
    /// shared pages read-only and copy-on-write.
    pub fn remap_range_copy_on_write(&mut self, parent_table: &mut Self, start: VirtualAddress, len: usize,
        pages: &mut PagePool) -> (r: Result<(), KernelError>)
        requires
            old(pages)@.wf(),
            old(pages)@.is_page(old(self).0),
            old(pages)@.is_page(old(parent_table).0),
            spec_check_vaddr_and_usize(start.0, len) is Ok ==> start.0 + len <= MAX_RANGE_END,
        ensures
            *final(self) == *old(self),
            *final(parent_table) == *old(parent_table),
            keeps_pages(old(pages)@, final(pages)@),
            match spec_check_vaddr_and_usize(start.0, len) {
                Err(e) => r == Err::<(), KernelError>(e) && final(pages)@ == old(pages)@,
                Ok(_) => (r, final(pages)@) == spec_walk_two_tables(
                    CopyRange { map_block: CopyBlock::CopyOnWrite {
                        flags: TT_COPY_ON_WRITE_FLAG | TT_READ_ONLY_FLAG | spec_attribute_index(0) } },
                    old(pages)@, TL0_ADDR_BITS, old(parent_table).0, old(self).0, start.0, (start.0 + len) as u64,
                    spec_table_index(TL0_ADDR_BITS, start.0)),
            },
    {
        check_vaddr_and_usize(start, len)?;
        let end = VirtualAddress(start.0 + len as u64);
        let flags = TT_COPY_ON_WRITE_FLAG | TT_READ_ONLY_FLAG | attribute_index(0);
        let mapper = CopyRange::new(CopyBlock::CopyOnWrite { flags });
        walk_two_tables(&mapper, pages, TL0_ADDR_BITS, PhysicalAddress(parent_table.0), PhysicalAddress(self.0), start, end)
    }
}

} // verus!
