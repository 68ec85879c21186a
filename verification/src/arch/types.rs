use vstd::prelude::*;

use crate::misc::{spec_align_up, spec_align_down};

verus! {

/// The base of the kernel's half of the virtual address space.
pub const KERNEL_VIRTUAL_BASE_ADDR: u64 = 0xffff_0000_0000_0000;

/// The bits of an address that lie below the kernel's base address.
pub const KERNEL_VIRTUAL_OFFSET_MASK: u64 = 0x0000_ffff_ffff_ffff;

/// An address in physical memory.
#[derive(Clone, Copy, PartialEq, Eq, Structural, Debug)]
pub struct PhysicalAddress(pub u64);

/// An address in a process's virtual address space.
#[derive(Clone, Copy, PartialEq, Eq, Structural, Debug)]
pub struct VirtualAddress(pub u64);

/// An address in the kernel's half of the virtual address space.
#[derive(Clone, Copy, PartialEq, Eq, Structural, Debug)]
pub struct KernelVirtualAddress(pub u64);

/// True when a value can be taken as a physical address: it holds none of the kernel bits.
pub open spec fn is_physical(addr: u64) -> bool {
    addr & KERNEL_VIRTUAL_BASE_ADDR == 0
}

impl PhysicalAddress {
    /// The physical address of the given value, which holds no kernel bits.
    pub fn from_u64(addr: u64) -> (r: Self)
        requires
            is_physical(addr),
        ensures
            r.0 == addr,
    {
        Self(addr)
    }

    /// The address as an integer.
    pub fn as_u64(self) -> (r: u64)
        ensures
            r == self.0,
    {
        self.0
    }

    /// The address `offset` bytes higher.
    pub fn add(self, offset: usize) -> (r: Self)
        requires
            self.0 + offset <= u64::MAX,
        ensures
            r.0 == self.0 + offset,
    {
        Self(self.0 + offset as u64)
    }

    /// The kernel virtual address through which this physical address is reached.
    pub fn to_kernel_addr(self) -> (r: KernelVirtualAddress)
        ensures
            r.0 == self.0 | KERNEL_VIRTUAL_BASE_ADDR,
    {
        KernelVirtualAddress::from_physical(self)
    }

    /// The address rounded up to a multiple of `align`.
    pub fn align_up(self, align: usize) -> (r: Self)
        requires
            align > 0,
            self.0 + align - 1 <= u64::MAX,
        ensures
            r.0 == spec_align_up(self.0 as int, align as int),
    {
        let a = align as u64;
        let x = self.0 + (a - 1);
        proof { vstd::arithmetic::div_mod::lemma_mod_decreases(x as nat, a as nat); }
        Self(x - x % a)
    }

    /// The physical address behind a kernel virtual address.
    pub fn from_kernel_addr(addr: KernelVirtualAddress) -> (r: Self)
        ensures
            r.0 == addr.0 & !KERNEL_VIRTUAL_BASE_ADDR,
            is_physical(r.0),
    {
        let a = addr.0;
        let v = a & !KERNEL_VIRTUAL_BASE_ADDR;
        assert(v & 0xffff_0000_0000_0000u64 == 0) by (bit_vector)
            requires v == a & !0xffff_0000_0000_0000u64;
        Self(v)
    }
}

impl VirtualAddress {
    /// The virtual address of the given value.
    pub fn from_u64(addr: u64) -> (r: Self)
        ensures
            r.0 == addr,
    {
        Self(addr)
    }

    /// The address as an integer.
    pub fn as_u64(self) -> (r: u64)
        ensures
            r == self.0,
    {
        self.0
    }

    /// The address `offset` bytes higher.
    pub fn add(self, offset: usize) -> (r: Self)
        requires
            self.0 + offset <= u64::MAX,
        ensures
            r.0 == self.0 + offset,
    {
        Self(self.0 + offset as u64)
    }

    /// The address `offset` bytes lower.
    pub fn sub(self, offset: usize) -> (r: Self)
        requires
            self.0 >= offset,
        ensures
            r.0 == self.0 - offset,
    {
        Self(self.0 - offset as u64)
    }

    /// The address rounded down to a multiple of `align`.
    pub fn align_down(self, align: usize) -> (r: Self)
        requires
            align > 0,
        ensures
            r.0 == spec_align_down(self.0 as int, align as int),
    {
        let a = align as u64;
        proof { vstd::arithmetic::div_mod::lemma_mod_decreases(self.0 as nat, a as nat); }
        Self(self.0 - self.0 % a)
    }

    /// The address rounded up to a multiple of `align`.
    pub fn align_up(self, align: usize) -> (r: Self)
        requires
            align > 0,
            self.0 + align - 1 <= u64::MAX,
        ensures
            r.0 == spec_align_up(self.0 as int, align as int),
    {
        let a = align as u64;
        let x = self.0 + (a - 1);
        proof { vstd::arithmetic::div_mod::lemma_mod_decreases(x as nat, a as nat); }
        Self(x - x % a)
    }

    /// How far the address lies above the multiple of `align` below it.
    pub fn offset_from_align(self, align: usize) -> (r: usize)
        requires
            align > 0,
        ensures
            r == (self.0 as int) % (align as int),
    {
        let a = align as u64;
        let o = self.0 % a;
        assert(o < a);
        o as usize
    }
}

impl KernelVirtualAddress {
    /// The kernel virtual address for the given offset into the kernel's address space.
    pub fn new(addr: u64) -> (r: Self)
        ensures
            r.0 == addr | KERNEL_VIRTUAL_BASE_ADDR,
    {
        Self(addr | KERNEL_VIRTUAL_BASE_ADDR)
    }

    /// The kernel virtual address through which a physical address is reached.
    pub fn from_physical(addr: PhysicalAddress) -> (r: Self)
        ensures
            r.0 == addr.0 | KERNEL_VIRTUAL_BASE_ADDR,
    {
        Self(addr.0 | KERNEL_VIRTUAL_BASE_ADDR)
    }

    /// The address `offset` bytes higher.
    pub fn add(self, offset: usize) -> (r: Self)
        requires
            self.0 + offset <= u64::MAX,
        ensures
            r.0 == self.0 + offset,
    {
        Self(self.0 + offset as u64)
    }
}

/// A physical address taken into the kernel's address space and back is unchanged.
pub proof fn lemma_kernel_addr_round_trip(addr: u64)
    requires
        is_physical(addr),
    ensures
        (addr | KERNEL_VIRTUAL_BASE_ADDR) & !KERNEL_VIRTUAL_BASE_ADDR == addr,
{
    assert((addr | 0xffff_0000_0000_0000u64) & !0xffff_0000_0000_0000u64 == addr) by (bit_vector)
        requires addr & 0xffff_0000_0000_0000u64 == 0;
}

/// Every kernel virtual address lies in the kernel's half of the address space.
pub proof fn lemma_kernel_addr_in_kernel_space(addr: u64)
    ensures
        (addr | KERNEL_VIRTUAL_BASE_ADDR) >= KERNEL_VIRTUAL_BASE_ADDR,
{
    assert((addr | 0xffff_0000_0000_0000u64) >= 0xffff_0000_0000_0000u64) by (bit_vector);
}

/// Rounding down and then adding the offset from the alignment gives back the address,
/// and rounding up never lands below rounding down.
pub proof fn lemma_align_down_offset(addr: int, align: int)
    requires
        0 <= addr,
        align > 0,
    ensures
        spec_align_down(addr, align) + addr % align == addr,
        spec_align_down(addr, align) <= addr <= spec_align_up(addr, align),
        spec_align_down(addr, align) % align == 0,
        spec_align_up(addr, align) % align == 0,
        spec_align_up(addr, align) - addr < align,
{
    vstd::arithmetic::div_mod::lemma_fundamental_div_mod(addr, align);
    vstd::arithmetic::div_mod::lemma_fundamental_div_mod(addr + align - 1, align);
    vstd::arithmetic::div_mod::lemma_mod_bound(addr, align);
    vstd::arithmetic::div_mod::lemma_mod_bound(addr + align - 1, align);
    vstd::arithmetic::div_mod::lemma_mod_multiples_basic(addr / align, align);
    vstd::arithmetic::div_mod::lemma_mod_multiples_basic((addr + align - 1) / align, align);
    vstd::arithmetic::mul::lemma_mul_is_commutative(align, addr / align);
    vstd::arithmetic::mul::lemma_mul_is_commutative(align, (addr + align - 1) / align);
}

} // verus!
