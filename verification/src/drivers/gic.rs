use vstd::prelude::*;

verus! {

// Offsets of the interrupt controller's registers.
pub const IRQ_PENDING1: usize = 0x04;
pub const IRQ_PENDING2: usize = 0x08;
pub const IRQ_ENABLE1: usize = 0x10;
pub const IRQ_ENABLE2: usize = 0x14;
pub const IRQ_DISABLE1: usize = 0x1C;
pub const IRQ_DISABLE2: usize = 0x20;

/// The number of interrupts that the controller handles.
pub const IRQ_COUNT: usize = 64;

/// Interrupt `n` is pending in the two pending words.
pub open spec fn irq_pending(pending: Seq<u32>, n: int) -> bool {
    pending[n / 32] & (1u32 << ((n % 32) as u32)) != 0
}

/// The first pending interrupt at or after `from`, if any.
pub open spec fn first_pending_from(pending: Seq<u32>, from: int, n: int) -> bool {
    &&& from <= n < IRQ_COUNT
    &&& irq_pending(pending, n)
    &&& forall|k: int| from <= k < n ==> !irq_pending(pending, k)
}

/// The pending interrupts, read from the controller, handed out in increasing order.
pub struct PendingInterruptIterator {
    pub next: usize,
    pub pending: [u32; 2],
}

impl PendingInterruptIterator {
    /// An iterator over the interrupts pending in the two pending words.
    pub fn new(pending: [u32; 2]) -> (r: Self)
        ensures
            r.next == 0,
            r.pending@ == pending@,
    {
        PendingInterruptIterator { next: 0, pending }
    }

    /// The next pending interrupt: the first at or after the position, which then moves past it.
    pub fn next(&mut self) -> (r: Option<usize>)
        ensures
            final(self).pending@ == old(self).pending@,
            match r {
                Some(n) => first_pending_from(old(self).pending@, old(self).next as int, n as int)
                    && final(self).next == n + 1,
                None => final(self).next == old(self).next
                    && forall|k: int| old(self).next <= k < IRQ_COUNT ==> !irq_pending(old(self).pending@, k),
            },
    {
        if self.next >= IRQ_COUNT {
            return None;
        }
        let mut index: usize = if self.next < 32 { 0 } else { 1 };
        let mut bit: usize = if self.next < 32 { self.next } else { self.next - 32 };
        while self.pending[index] & (1u32 << (bit as u32)) == 0
            invariant
                index < 2,
                bit < 32,
                self.next < IRQ_COUNT,
                old(self).next == self.next,
                old(self).pending@ == self.pending@,
                self.next <= index * 32 + bit,
                forall|k: int| self.next <= k < index * 32 + bit ==> !irq_pending(self.pending@, k),
            decreases 64 - (index * 32 + bit),
        {
            assert(!irq_pending(self.pending@, index * 32 + bit));
            bit += 1;
            if bit >= 32 {
                bit = 0;
                index += 1;
                if index >= 2 {
                    return None;
                }
            }
        }
        let n = index * 32 + bit;
        assert(irq_pending(self.pending@, n as int));
        self.next = n + 1;
        Some(n)
    }
}

/// The register that enables interrupt `irq`, and the bit to write to it.
pub fn enable_irq_register(irq: usize) -> (r: (usize, u32))
    requires
        irq < IRQ_COUNT,
    ensures
        r == if irq < 32 { (IRQ_ENABLE1, 1u32 << (irq as u32)) } else { (IRQ_ENABLE2, 1u32 << ((irq - 32) as u32)) },
{
    if irq < 32 {
        (IRQ_ENABLE1, 1u32 << (irq as u32))
    } else {
        (IRQ_ENABLE2, 1u32 << ((irq - 32) as u32))
    }
}

/// The register that disables interrupt `irq`, and the bit to write to it.
pub fn disable_irq_register(irq: usize) -> (r: (usize, u32))
    requires
        irq < IRQ_COUNT,
    ensures
        r == if irq < 32 { (IRQ_DISABLE1, 1u32 << (irq as u32)) } else { (IRQ_DISABLE2, 1u32 << ((irq - 32) as u32)) },
{
    if irq < 32 {
        (IRQ_DISABLE1, 1u32 << (irq as u32))
    } else {
        (IRQ_DISABLE2, 1u32 << ((irq - 32) as u32))
    }
}

} // verus!
