use vstd::prelude::*;

use crate::errors::KernelError;
use crate::arch::sync::{AtomicBool, Spinlock};
use super::BlockNum;

verus! {

/// A block held in memory, and whether it has changed since it was read.
pub struct Buf {
    pub dirty: AtomicBool,
    pub block: Spinlock<Vec<u8>>,
}

impl Buf {
    /// A clean buffer of `block_size` zero bytes.
    pub fn new(block_size: usize) -> (r: Self)
        ensures
            !r.dirty.inner,
            !r.block.locked.inner,
            r.block.data@ == Seq::new(block_size as nat, |i: int| 0u8),
    {
        let mut data: Vec<u8> = Vec::new();
        let mut i: usize = 0;
        while i < block_size
            invariant
                0 <= i <= block_size,
                data@ == Seq::new(i as nat, |k: int| 0u8),
            decreases block_size - i,
        {
            data.push(0);
            i += 1;
            assert(data@ =~= Seq::new(i as nat, |k: int| 0u8));
        }
        Buf { dirty: AtomicBool::new(false), block: Spinlock::new(data) }
    }
}

/// The blocks of a device kept in memory, by block number, and the size of its blocks.
pub struct BufCache {
    pub block_size: usize,
    pub entries: Vec<(BlockNum, Buf)>,
}

impl BufCache {
    /// An empty cache of blocks of `block_size` bytes.
    pub fn new(block_size: usize) -> (r: Self)
        ensures
            r.block_size == block_size,
            r.entries@.len() == 0,
    {
        BufCache { block_size, entries: Vec::new() }
    }

    /// The size of the cached blocks.
    pub fn block_size(&self) -> (r: usize)
        ensures
            r == self.block_size,
    {
        self.block_size
    }

    /// Changes the size of the blocks, dropping the blocks cached at the old size.
    pub fn set_block_size(&mut self, block_size: usize) -> (r: Result<(), KernelError>)
        ensures
            r is Ok,
            final(self).block_size == block_size,
            final(self).entries@.len() == 0,
    {
        self.entries = Vec::new();
        self.block_size = block_size;
        Ok(())
    }

    /// The place in the cache of block `num`, if it is cached.
    pub fn find(&self, num: BlockNum) -> (r: Option<usize>)
        ensures
            match r {
                Some(i) => i < self.entries@.len() && self.entries@[i as int].0 == num
                    && forall|k: int| 0 <= k < i ==> self.entries@[k].0 != num,
                None => forall|k: int| 0 <= k < self.entries@.len() ==> self.entries@[k].0 != num,
            },
    {
        let mut i: usize = 0;
        while i < self.entries.len()
            invariant
                0 <= i <= self.entries@.len(),
                forall|k: int| 0 <= k < i ==> self.entries@[k].0 != num,
            decreases self.entries@.len() - i,
        {
            if self.entries[i].0 == num {
                return Some(i);
            }
            i += 1;
        }
        None
    }

    /// Keeps `buf` in the cache as block `num`.
    pub fn insert(&mut self, num: BlockNum, buf: Buf)
        ensures
            final(self).block_size == old(self).block_size,
            final(self).entries@.len() == old(self).entries@.len() + 1,
            final(self).entries@[old(self).entries@.len() as int].0 == num,
            forall|k: int| 0 <= k < old(self).entries@.len() ==> final(self).entries@[k] == old(self).entries@[k],
    {
        self.entries.push((num, buf));
    }
}

} // verus!
