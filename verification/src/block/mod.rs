use vstd::prelude::*;

use crate::errors::KernelError;

pub mod bufcache;
pub mod partition;
pub mod devices;

pub use self::devices::{BlockDriverInfo, lookup_device};

verus! {

/// The number of a block on a device.
pub type BlockNum = u32;

/// The number of a device driver.
pub type DriverID = u8;

/// The number of a device within its driver.
pub type MinorDeviceID = u8;

/// A device, named by its driver and its number within the driver.
#[derive(Clone, Copy, PartialEq, Eq, Structural, Debug)]
pub struct DeviceID(pub DriverID, pub MinorDeviceID);

/// The contents of a block device as seen through its buffer cache: a sequence of bytes
/// divided into blocks of `block_size` bytes.
pub struct BlockStore {
    block_size: usize,
    data: Vec<u8>,
}

/// The abstract state of a block store.
pub struct BlockStoreView {
    pub block_size: nat,
    pub data: Seq<u8>,
}

impl BlockStoreView {
    /// The store holds a positive block size.
    pub open spec fn wf(self) -> bool {
        self.block_size > 0
    }

    /// The first byte of block `num`.
    pub open spec fn block_start(self, num: int) -> int {
        num * self.block_size
    }

    /// True when the device holds the whole of block `num`.
    pub open spec fn has_block(self, num: int) -> bool {
        0 <= num && (num + 1) * self.block_size <= self.data.len()
    }

    /// The bytes of block `num`.
    pub open spec fn block(self, num: int) -> Seq<u8> {
        self.data.subrange(self.block_start(num), self.block_start(num) + self.block_size)
    }

    /// The store with block `num` replaced by `bytes`.
    pub open spec fn set_block(self, num: int, bytes: Seq<u8>) -> Self {
        BlockStoreView {
            block_size: self.block_size,
            data: self.data.subrange(0, self.block_start(num)) + bytes
                + self.data.subrange(self.block_start(num) + self.block_size, self.data.len() as int),
        }
    }

    /// The result of reading block `num`: its bytes, or `IOError` where the device ends.
    pub open spec fn read(self, num: int) -> Result<Seq<u8>, KernelError> {
        if self.has_block(num) { Ok(self.block(num)) } else { Err(KernelError::IOError) }
    }
}

impl View for BlockStore {
    type V = BlockStoreView;

    closed spec fn view(&self) -> BlockStoreView {
        BlockStoreView { block_size: self.block_size as nat, data: self.data@ }
    }
}

/// The position of block `num` lies within the store when the store holds the block.
pub proof fn lemma_block_bounds(v: BlockStoreView, num: int)
    requires
        v.wf(),
        v.has_block(num),
    ensures
        0 <= v.block_start(num),
        v.block_start(num) + v.block_size <= v.data.len(),
{
    assert(num * v.block_size >= 0) by (nonlinear_arith) requires num >= 0;
    assert(num * v.block_size + v.block_size == (num + 1) * v.block_size) by (nonlinear_arith);
}

/// Writing a block with the bytes it holds leaves the store as it was.
pub proof fn lemma_set_block_unchanged(v: BlockStoreView, n: int)
    requires
        v.wf(),
        v.has_block(n),
    ensures
        v.set_block(n, v.block(n)) == v,
{
    lemma_block_bounds(v, n);
    let w = v.set_block(n, v.block(n));
    assert(w.data =~= v.data);
}

/// Writing a block twice leaves what the second write wrote.
pub proof fn lemma_set_block_twice(v: BlockStoreView, n: int, first: Seq<u8>, second: Seq<u8>)
    requires
        v.wf(),
        v.has_block(n),
        first.len() == v.block_size,
        second.len() == v.block_size,
    ensures
        v.set_block(n, first).set_block(n, second) == v.set_block(n, second),
{
    lemma_block_bounds(v, n);
    let w = v.set_block(n, first);
    assert(w.data.len() == v.data.len());
    assert(w.set_block(n, second).data =~= v.set_block(n, second).data);
}

/// What a read of a block gives back after a write: the bytes written, at the block written,
/// and what was there before, at every other block.
pub proof fn lemma_read_after_write(v: BlockStoreView, n: int, m: int, bytes: Seq<u8>)
    requires
        v.wf(),
        v.has_block(n),
        bytes.len() == v.block_size,
    ensures
        v.set_block(n, bytes).data.len() == v.data.len(),
        v.set_block(n, bytes).read(n) == Ok::<Seq<u8>, KernelError>(bytes),
        m != n ==> v.set_block(n, bytes).read(m) == v.read(m),
{
    lemma_block_bounds(v, n);
    let w = v.set_block(n, bytes);
    let bs = v.block_size as int;
    assert(w.data.len() == v.data.len());
    assert(w.block(n) =~= bytes);
    if m != n && v.has_block(m) {
        lemma_block_bounds(v, m);
        if m < n {
            assert((m + 1) * bs <= n * bs) by (nonlinear_arith) requires m + 1 <= n, bs > 0;
        } else {
            assert((n + 1) * bs <= m * bs) by (nonlinear_arith) requires n + 1 <= m, bs > 0;
        }
        assert(m * bs + bs == (m + 1) * bs) by (nonlinear_arith);
        assert(n * bs + bs == (n + 1) * bs) by (nonlinear_arith);
        assert(w.block(m) =~= v.block(m));
    }
}

impl BlockStore {
    /// A store holding `data` in blocks of `block_size` bytes.
    pub fn new(block_size: usize, data: Vec<u8>) -> (r: Self)
        requires
            block_size > 0,
        ensures
            r@.wf(),
            r@.block_size == block_size,
            r@.data == data@,
    {
        BlockStore { block_size, data }
    }

    /// The size of the blocks in which the store is read.
    pub fn get_buf_size(&self) -> (r: usize)
        ensures
            r == self@.block_size,
    {
        self.block_size
    }

    /// Changes the size of the blocks in which the store is read.
    pub fn set_buf_size(&mut self, size: usize) -> (r: Result<(), KernelError>)
        requires
            size > 0,
        ensures
            r is Ok,
            final(self)@.block_size == size,
            final(self)@.data == old(self)@.data,
            final(self)@.wf(),
    {
        self.block_size = size;
        Ok(())
    }

    /// The whole device's bytes.
    pub fn into_data(self) -> (r: Vec<u8>)
        ensures
            r@ == self@.data,
    {
        self.data
    }

    /// True when the device holds the whole of block `num`.
    pub fn has_block(&self, num: BlockNum) -> (r: bool)
        requires
            self@.wf(),
        ensures
            r == self@.has_block(num as int),
    {
        let n = num as usize;
        let count = self.data.len() / self.block_size;
        proof {
            let bs = self.block_size as int;
            let len = self.data@.len() as int;
            vstd::arithmetic::div_mod::lemma_fundamental_div_mod(len, bs);
            vstd::arithmetic::div_mod::lemma_mod_bound(len, bs);
            if n < count {
                assert((n + 1) * bs <= count * bs) by (nonlinear_arith) requires n + 1 <= count, bs > 0;
                assert(count * bs <= len) by { vstd::arithmetic::mul::lemma_mul_is_commutative(bs, count as int); }
            } else {
                assert((n + 1) * bs > len) by (nonlinear_arith)
                    requires n >= count, bs > 0, len == bs * count + len % bs, len % bs < bs;
            }
        }
        n < count
    }

    /// Reads block `num`.
    pub fn read_block(&self, num: BlockNum) -> (r: Result<Vec<u8>, KernelError>)
        requires
            self@.wf(),
        ensures
            match r {
                Ok(b) => self@.read(num as int) == Ok::<Seq<u8>, KernelError>(b@),
                Err(e) => self@.read(num as int) == Err::<Seq<u8>, KernelError>(e),
            },
    {
        if !self.has_block(num) {
            return Err(KernelError::IOError);
        }
        proof { lemma_block_bounds(self@, num as int); }
        let len = self.data.len();
        let start = num as usize * self.block_size;
        let mut out: Vec<u8> = Vec::new();
        let mut i: usize = 0;
        while i < self.block_size
            invariant
                0 <= i <= self.block_size,
                start == self@.block_start(num as int),
                start + self.block_size <= len,
                len == self.data@.len(),
                out@ == self.data@.subrange(start as int, start + i),
            decreases self.block_size - i,
        {
            out.push(self.data[start + i]);
            i += 1;
            assert(out@ =~= self.data@.subrange(start as int, start + i));
        }
        Ok(out)
    }

    /// Replaces block `num` with `bytes`.
    pub fn write_block(&mut self, num: BlockNum, bytes: &Vec<u8>) -> (r: Result<(), KernelError>)
        requires
            old(self)@.wf(),
            bytes@.len() == old(self)@.block_size,
        ensures
            final(self)@.wf(),
            final(self)@.block_size == old(self)@.block_size,
            final(self)@.data.len() == old(self)@.data.len(),
            if old(self)@.has_block(num as int) {
                r is Ok && final(self)@ == old(self)@.set_block(num as int, bytes@)
            } else {
                r == Err::<(), KernelError>(KernelError::IOError) && final(self)@ == old(self)@
            },
    {
        if !self.has_block(num) {
            return Err(KernelError::IOError);
        }
        proof { lemma_block_bounds(self@, num as int); }
        let len = self.data.len();
        let start = num as usize * self.block_size;
        let ghost old_data = self.data@;
        let mut i: usize = 0;
        while i < self.block_size
            invariant
                0 <= i <= self.block_size,
                self.block_size == old(self)@.block_size,
                bytes@.len() == self.block_size,
                start == old(self)@.block_start(num as int),
                start + self.block_size <= len,
                len == old_data.len(),
                old_data == old(self)@.data,
                self.data@.len() == old_data.len(),
                forall|k: int| 0 <= k < old_data.len() ==> #[trigger] self.data@[k] ==
                    if start <= k < start + i { bytes@[k - start] } else { old_data[k] },
            decreases self.block_size - i,
        {
            self.data.set(start + i, bytes[i]);
            i += 1;
        }
        assert(self@.data =~= old(self)@.set_block(num as int, bytes@).data);
        Ok(())
    }
}

/// Reads into `buffer` the bytes of the device at byte `offset`, through the cache, and
/// returns zero. A read is served from the one block that holds the start of the buffer, so
/// the buffer fits in a block and starts at a block's start (or is empty).
pub fn buffered_read(store: &BlockStore, buffer: &mut Vec<u8>, offset: u64) -> (r: Result<usize, KernelError>)
    requires
        store@.wf(),
        old(buffer)@.len() == 0 || (old(buffer)@.len() <= store@.block_size && (offset as int) % (store@.block_size as int) == 0),
    ensures
        old(buffer)@.len() == 0 ==> r == Ok::<usize, KernelError>(0) && final(buffer)@ == old(buffer)@,
        old(buffer)@.len() > 0 ==> match store@.read((((offset as int) / (store@.block_size as int)) as u32) as int) {
            Err(e) => r == Err::<usize, KernelError>(e) && final(buffer)@ == old(buffer)@,
            Ok(block) => r == Ok::<usize, KernelError>(0) && final(buffer)@ == block.subrange(0, old(buffer)@.len() as int),
        },
{
    let block_size = store.get_buf_size() as u64;
    let len = buffer.len();
    if len == 0 {
        return Ok(0);
    }
    let block_num = (offset / block_size) as BlockNum;
    let bytes = store.read_block(block_num)?;
    proof { lemma_block_bounds(store@, block_num as int); }
    let ghost buf0 = buffer@;
    let mut i: usize = 0;
    while i < len
        invariant
            0 <= i <= len,
            len == buffer@.len(),
            len <= bytes@.len(),
            forall|k: int| 0 <= k < i ==> buffer@[k] == bytes@[k],
        decreases len - i,
    {
        buffer.set(i, bytes[i]);
        i += 1;
    }
    assert(buffer@ =~= bytes@.subrange(0, len as int));
    Ok(0)
}

} // verus!
