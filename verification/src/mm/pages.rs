use vstd::prelude::*;

use crate::errors::KernelError;
use crate::arch::types::PhysicalAddress;

verus! {

/// The size in bytes of a page of physical memory.
pub const PAGE_SIZE: usize = 4096;

/// The number of 64-bit words in a page.
pub const PAGE_WORDS: usize = 512;

/// The largest number of pages that the pool hands out.
pub const MAX_PAGES: usize = 0x10_0000;

/// The physical memory from which pages are allocated, held as 64-bit words.
///
/// Page `i` of the pool lies at physical address `(i + 1) * PAGE_SIZE`, so that no page
/// lies at address zero; its words are `words[i * PAGE_WORDS .. (i + 1) * PAGE_WORDS]`.
/// Each page carries a count of the references to it.
pub struct PagePool {
    words: Vec<u64>,
    refs: Vec<usize>,
}

/// The abstract state of a page pool: its memory and the reference count of each page.
pub struct PagePoolView {
    pub words: Seq<u64>,
    pub refs: Seq<usize>,
}

impl PagePoolView {
    /// The number of pages in the pool.
    pub open spec fn num_pages(self) -> nat {
        self.refs.len()
    }

    /// The pool holds a whole number of pages, each with a reference count.
    pub open spec fn wf(self) -> bool {
        &&& self.words.len() == self.refs.len() * PAGE_WORDS
        &&& self.refs.len() <= MAX_PAGES
    }

    /// True when `paddr` is the address of a page of the pool.
    pub open spec fn is_page(self, paddr: u64) -> bool {
        &&& paddr % (PAGE_SIZE as u64) == 0
        &&& paddr >= PAGE_SIZE
        &&& paddr / (PAGE_SIZE as u64) - 1 < self.num_pages()
    }

    /// The index of the page at `paddr`.
    pub open spec fn page_index(paddr: u64) -> int {
        paddr / (PAGE_SIZE as u64) - 1
    }

    /// The position in memory of word `index` of the page at `paddr`.
    pub open spec fn word_pos(paddr: u64, index: int) -> int {
        Self::page_index(paddr) * PAGE_WORDS + index
    }

    /// Word `index` of the page at `paddr`.
    pub open spec fn word(self, paddr: u64, index: int) -> u64 {
        self.words[Self::word_pos(paddr, index)]
    }

    /// The pool with word `index` of the page at `paddr` set to `value`.
    pub open spec fn set_word(self, paddr: u64, index: int, value: u64) -> Self {
        PagePoolView {
            words: self.words.update(Self::word_pos(paddr, index), value),
            refs: self.refs,
        }
    }

    /// The pool with one more page, zeroed and referenced once.
    pub open spec fn push_zeroed(self) -> Self {
        PagePoolView {
            words: self.words + Seq::new(PAGE_WORDS as nat, |i: int| 0u64),
            refs: self.refs.push(1),
        }
    }

    /// The address that the next allocated page will have.
    pub open spec fn next_page_addr(self) -> u64 {
        ((self.num_pages() + 1) * PAGE_SIZE) as u64
    }

    /// The state after allocating a page: `OutOfMemory` when the pool is exhausted.
    pub open spec fn alloc_result(self) -> (Result<u64, KernelError>, Self) {
        if self.num_pages() >= MAX_PAGES {
            (Err(KernelError::OutOfMemory), self)
        } else {
            (Ok(self.next_page_addr()), self.push_zeroed())
        }
    }

    /// The state after taking one more reference to the page at `paddr`, if it is a page
    /// of the pool; other addresses (such as device memory) are left as they are.
    pub open spec fn add_ref(self, paddr: u64) -> Self {
        if self.is_page(paddr) && self.refs[Self::page_index(paddr)] < usize::MAX {
            PagePoolView {
                words: self.words,
                refs: self.refs.update(Self::page_index(paddr), (self.refs[Self::page_index(paddr)] + 1) as usize),
            }
        } else {
            self
        }
    }

    /// The state after dropping one reference to the page at `paddr`, if it is a page of the pool.
    pub open spec fn drop_ref(self, paddr: u64) -> Self {
        if self.is_page(paddr) && self.refs[Self::page_index(paddr)] > 0 {
            PagePoolView {
                words: self.words,
                refs: self.refs.update(Self::page_index(paddr), (self.refs[Self::page_index(paddr)] - 1) as usize),
            }
        } else {
            self
        }
    }
}

/// Every page address of a pool lies below the kernel's half of the address space.
pub proof fn lemma_page_addr_bound(v: PagePoolView, paddr: u64)
    requires
        v.wf(),
        v.is_page(paddr),
    ensures
        paddr < 0x1_0000_0000_0000,
        0 <= PagePoolView::page_index(paddr) < v.num_pages(),
        0 <= PagePoolView::word_pos(paddr, 0),
        PagePoolView::word_pos(paddr, PAGE_WORDS as int) <= v.words.len(),
{
    let i = PagePoolView::page_index(paddr);
    let q = paddr / (PAGE_SIZE as u64);
    assert(paddr == q * 4096) by (nonlinear_arith)
        requires paddr % 4096 == 0, q == paddr / 4096;
    assert(q * 4096 <= (MAX_PAGES + 1) * 4096) by (nonlinear_arith)
        requires q <= MAX_PAGES + 1;
    assert(i * PAGE_WORDS + PAGE_WORDS == (i + 1) * PAGE_WORDS) by (nonlinear_arith);
    assert((i + 1) * PAGE_WORDS <= v.num_pages() * PAGE_WORDS) by (nonlinear_arith)
        requires i + 1 <= v.num_pages();
}

impl View for PagePool {
    type V = PagePoolView;

    closed spec fn view(&self) -> PagePoolView {
        PagePoolView { words: self.words@, refs: self.refs@ }
    }
}

impl PagePool {
    /// An empty pool.
    pub fn new() -> (r: Self)
        ensures
            r@.wf(),
            r@.num_pages() == 0,
    {
        PagePool { words: Vec::new(), refs: Vec::new() }
    }

    /// The number of pages in the pool.
    pub fn num_pages(&self) -> (r: usize)
        requires
            self@.wf(),
        ensures
            r == self@.num_pages(),
    {
        self.refs.len()
    }

    /// True when `paddr` is the address of a page of the pool.
    pub fn is_page(&self, paddr: u64) -> (r: bool)
        requires
            self@.wf(),
        ensures
            r == self@.is_page(paddr),
    {
        paddr % (PAGE_SIZE as u64) == 0 && paddr >= PAGE_SIZE as u64
            && paddr / (PAGE_SIZE as u64) - 1 < self.refs.len() as u64
    }

    /// The number of references to the page at `paddr`.
    pub fn ref_count(&self, paddr: u64) -> (r: usize)
        requires
            self@.wf(),
            self@.is_page(paddr),
        ensures
            r == self@.refs[PagePoolView::page_index(paddr)],
    {
        proof { lemma_page_addr_bound(self@, paddr); }
        self.refs[(paddr / PAGE_SIZE as u64 - 1) as usize]
    }

    /// Word `index` of the page at `paddr`.
    pub fn read_word(&self, paddr: u64, index: usize) -> (r: u64)
        requires
            self@.wf(),
            self@.is_page(paddr),
            index < PAGE_WORDS,
        ensures
            r == self@.word(paddr, index as int),
    {
        proof { lemma_page_addr_bound(self@, paddr); }
        let page = (paddr / PAGE_SIZE as u64 - 1) as usize;
        assert(page * PAGE_WORDS + index < self@.words.len()) by (nonlinear_arith)
            requires page < self@.num_pages(), index < PAGE_WORDS,
                self@.words.len() == self@.num_pages() * PAGE_WORDS;
        self.words[page * PAGE_WORDS + index]
    }

    /// Sets word `index` of the page at `paddr` to `value`.
    pub fn write_word(&mut self, paddr: u64, index: usize, value: u64)
        requires
            old(self)@.wf(),
            old(self)@.is_page(paddr),
            index < PAGE_WORDS,
        ensures
            final(self)@ == old(self)@.set_word(paddr, index as int, value),
            final(self)@.wf(),
    {
        proof { lemma_page_addr_bound(self@, paddr); }
        let page = (paddr / PAGE_SIZE as u64 - 1) as usize;
        assert(page * PAGE_WORDS + index < self@.words.len()) by (nonlinear_arith)
            requires page < self@.num_pages(), index < PAGE_WORDS,
                self@.words.len() == self@.num_pages() * PAGE_WORDS;
        self.words.set(page * PAGE_WORDS + index, value);
    }

    /// Allocates a zeroed page, referenced once, and returns its address.
    pub fn alloc_page_zeroed(&mut self) -> (r: Result<PhysicalAddress, KernelError>)
        requires
            old(self)@.wf(),
        ensures
            final(self)@.wf(),
            (match r { Ok(p) => Ok(p.0), Err(e) => Err(e) }, final(self)@) == old(self)@.alloc_result(),
    {
        if self.refs.len() >= MAX_PAGES {
            return Err(KernelError::OutOfMemory);
        }
        let ghost old_words = self.words@;
        let mut i: usize = 0;
        while i < PAGE_WORDS
            invariant
                0 <= i <= PAGE_WORDS,
                self.refs@ == old(self)@.refs,
                self.refs@.len() < MAX_PAGES,
                old_words == old(self)@.words,
                old_words.len() == self.refs@.len() * PAGE_WORDS,
                self.words@ == old_words + Seq::new(i as nat, |j: int| 0u64),
            decreases PAGE_WORDS - i,
        {
            self.words.push(0);
            i = i + 1;
            assert(self.words@ == old_words + Seq::new(i as nat, |j: int| 0u64));
        }
        let n = self.refs.len();
        self.refs.push(1);
        assert(n * PAGE_WORDS + PAGE_WORDS == (n + 1) * PAGE_WORDS) by (nonlinear_arith);
        assert((n + 1) * PAGE_SIZE <= (MAX_PAGES + 1) * PAGE_SIZE) by (nonlinear_arith)
            requires n < MAX_PAGES;
        let addr = ((n as u64) + 1) * (PAGE_SIZE as u64);
        Ok(PhysicalAddress(addr))
    }

    /// Takes one more reference to the page at `paddr` and returns the same address.
    pub fn ref_page(&mut self, paddr: PhysicalAddress) -> (r: PhysicalAddress)
        requires
            old(self)@.wf(),
        ensures
            r == paddr,
            final(self)@ == old(self)@.add_ref(paddr.0),
            final(self)@.wf(),
    {
        if self.is_page(paddr.0) {
            proof { lemma_page_addr_bound(self@, paddr.0); }
            let page = (paddr.0 / PAGE_SIZE as u64 - 1) as usize;
            let count = self.refs[page];
            if count < usize::MAX {
                self.refs.set(page, count + 1);
            }
        }
        paddr
    }

    /// Drops one reference to the page at `paddr`.
    pub fn free_page(&mut self, paddr: PhysicalAddress)
        requires
            old(self)@.wf(),
        ensures
            final(self)@ == old(self)@.drop_ref(paddr.0),
            final(self)@.wf(),
    {
        if self.is_page(paddr.0) {
            proof { lemma_page_addr_bound(self@, paddr.0); }
            let page = (paddr.0 / PAGE_SIZE as u64 - 1) as usize;
            let count = self.refs[page];
            if count > 0 {
                self.refs.set(page, count - 1);
            }
        }
    }
}

} // verus!
