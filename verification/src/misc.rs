use vstd::prelude::*;

verus! {

/// `length` rounded down to a multiple of `alignment`.
pub open spec fn spec_align_down(length: int, alignment: int) -> int {
    length - length % alignment
}

/// `length` rounded up to a multiple of `alignment`.
pub open spec fn spec_align_up(length: int, alignment: int) -> int {
    spec_align_down(length + alignment - 1, alignment)
}

/// The number of `units` needed to hold `size`, counting a partial unit as a whole one.
pub open spec fn spec_ceiling_div(size: int, units: int) -> int {
    if size % units == 0 { size / units } else { size / units + 1 }
}

/// Rounds `length` down to a multiple of `alignment`.
pub fn align_down(length: usize, alignment: usize) -> (r: usize)
    requires
        alignment > 0,
    ensures
        r == spec_align_down(length as int, alignment as int),
        r <= length,
        r % alignment == 0,
        length - r < alignment,
{
    proof {
        vstd::arithmetic::div_mod::lemma_fundamental_div_mod(length as int, alignment as int);
        vstd::arithmetic::div_mod::lemma_mod_multiples_basic((length / alignment) as int, alignment as int);
        vstd::arithmetic::div_mod::lemma_mod_bound(length as int, alignment as int);
        assert(length - length % alignment == alignment * (length / alignment));
        vstd::arithmetic::mul::lemma_mul_is_commutative(alignment as int, (length / alignment) as int);
    }
    length - length % alignment
}

/// Rounds `length` up to a multiple of `alignment`.
pub fn align_up(length: usize, alignment: usize) -> (r: usize)
    requires
        alignment > 0,
        length + alignment - 1 <= usize::MAX,
    ensures
        r == spec_align_up(length as int, alignment as int),
        length <= r,
        r % alignment == 0,
        r - length < alignment,
{
    align_down(length + (alignment - 1), alignment)
}

/// The distance of `length` above the multiple of `alignment` below it.
pub fn offset_from_align(length: usize, alignment: usize) -> (r: usize)
    requires
        alignment > 0,
    ensures
        r == length % alignment,
        r + spec_align_down(length as int, alignment as int) == length,
{
    length % alignment
}

/// Divides `size` by `units`, rounding up.
pub fn ceiling_div(size: usize, units: usize) -> (r: usize)
    requires
        units > 0,
    ensures
        r == spec_ceiling_div(size as int, units as int),
        r * units >= size,
        (r - 1) * units < size || size == 0,
{
    proof {
        vstd::arithmetic::div_mod::lemma_fundamental_div_mod(size as int, units as int);
    }
    let q = size / units;
    if size % units != 0 {
        assert(units >= 2);
        assert(q <= size / 2) by {
            vstd::arithmetic::div_mod::lemma_div_is_ordered_by_denominator(size as int, 2, units as int);
        }
        assert(size == units * q + size % units);
        proof { vstd::arithmetic::mul::lemma_mul_is_commutative(units as int, q as int); }
        assert((q + 1) * units == q * units + units) by (nonlinear_arith);
        assert(((q + 1) - 1) * units < size);
        q + 1
    } else {
        assert(size == units * q + size % units);
        proof { vstd::arithmetic::mul::lemma_mul_is_commutative(units as int, q as int); }
        assert(q == 0 || (q - 1) * units == q * units - units) by (nonlinear_arith);
        assert(size == 0 || (q - 1) * units < size);
        q
    }
}

/// The little-endian 16-bit value held by two bytes.
pub open spec fn spec_le16(b0: u8, b1: u8) -> u16 {
    (b0 as int + b1 as int * 0x100) as u16
}

/// The little-endian 32-bit value held by four bytes.
pub open spec fn spec_le32(b0: u8, b1: u8, b2: u8, b3: u8) -> u32 {
    (b0 as int + b1 as int * 0x100 + b2 as int * 0x1_0000 + b3 as int * 0x100_0000) as u32
}

/// The little-endian 16-bit value at `offset` in `bytes`.
pub open spec fn spec_read_le16(bytes: Seq<u8>, offset: int) -> u16 {
    spec_le16(bytes[offset], bytes[offset + 1])
}

/// The little-endian 32-bit value at `offset` in `bytes`.
pub open spec fn spec_read_le32(bytes: Seq<u8>, offset: int) -> u32 {
    spec_le32(bytes[offset], bytes[offset + 1], bytes[offset + 2], bytes[offset + 3])
}

/// `bytes` with `value` written as two little-endian bytes at `offset`.
pub open spec fn spec_set_le16(bytes: Seq<u8>, offset: int, value: u16) -> Seq<u8> {
    bytes.update(offset, (value % 0x100) as u8).update(offset + 1, (value / 0x100) as u8)
}

/// `bytes` with `value` written as four little-endian bytes at `offset`.
pub open spec fn spec_set_le32(bytes: Seq<u8>, offset: int, value: u32) -> Seq<u8> {
    bytes.update(offset, (value % 0x100) as u8)
        .update(offset + 1, ((value / 0x100) % 0x100) as u8)
        .update(offset + 2, ((value / 0x1_0000) % 0x100) as u8)
        .update(offset + 3, (value / 0x100_0000) as u8)
}

/// Reads a little-endian 16-bit value at `offset` in `bytes`.
pub fn read_le16(bytes: &[u8], offset: usize) -> (r: u16)
    requires
        offset + 2 <= bytes@.len(),
    ensures
        r == spec_read_le16(bytes@, offset as int),
{
    let b0 = bytes[offset] as u16;
    let b1 = bytes[offset + 1] as u16;
    b0 + b1 * 0x100
}

/// Reads a little-endian 32-bit value at `offset` in `bytes`.
pub fn read_le32(bytes: &[u8], offset: usize) -> (r: u32)
    requires
        offset + 4 <= bytes@.len(),
    ensures
        r == spec_read_le32(bytes@, offset as int),
{
    let b0 = bytes[offset] as u32;
    let b1 = bytes[offset + 1] as u32;
    let b2 = bytes[offset + 2] as u32;
    let b3 = bytes[offset + 3] as u32;
    b0 + b1 * 0x100 + b2 * 0x1_0000 + b3 * 0x100_0000
}

/// Writes `value` as two little-endian bytes at `offset` in `bytes`.
pub fn write_le16(bytes: &mut Vec<u8>, offset: usize, value: u16)
    requires
        offset + 2 <= old(bytes)@.len(),
    ensures
        final(bytes)@.len() == old(bytes)@.len(),
        final(bytes)@ == spec_set_le16(old(bytes)@, offset as int, value),
        spec_read_le16(final(bytes)@, offset as int) == value,
        forall|i: int| 0 <= i < old(bytes)@.len() && !(offset <= i < offset + 2)
            ==> final(bytes)@[i] == old(bytes)@[i],
{
    let b0 = (value % 0x100) as u8;
    let b1 = (value / 0x100) as u8;
    let len = bytes.len();
    bytes.set(offset, b0);
    assert(bytes@.len() == len);
    bytes.set(offset + 1, b1);
    assert(spec_le16(b0, b1) == value);
}

/// Writes `value` as four little-endian bytes at `offset` in `bytes`.
pub fn write_le32(bytes: &mut Vec<u8>, offset: usize, value: u32)
    requires
        offset + 4 <= old(bytes)@.len(),
    ensures
        final(bytes)@.len() == old(bytes)@.len(),
        final(bytes)@ == spec_set_le32(old(bytes)@, offset as int, value),
        spec_read_le32(final(bytes)@, offset as int) == value,
        forall|i: int| 0 <= i < old(bytes)@.len() && !(offset <= i < offset + 4)
            ==> final(bytes)@[i] == old(bytes)@[i],
{
    let b0 = (value % 0x100) as u8;
    let b1 = ((value / 0x100) % 0x100) as u8;
    let b2 = ((value / 0x1_0000) % 0x100) as u8;
    let b3 = (value / 0x100_0000) as u8;
    let len = bytes.len();
    bytes.set(offset, b0);
    assert(bytes@.len() == len);
    bytes.set(offset + 1, b1);
    assert(bytes@.len() == len);
    bytes.set(offset + 2, b2);
    assert(bytes@.len() == len);
    bytes.set(offset + 3, b3);
    assert(spec_le32(b0, b1, b2, b3) == value);
}

/// A copy of the bytes of `bytes` from `start` up to `end`.
pub fn copy_range(bytes: &[u8], start: usize, end: usize) -> (r: Vec<u8>)
    requires
        start <= end <= bytes@.len(),
    ensures
        r@ == bytes@.subrange(start as int, end as int),
{
    let mut out: Vec<u8> = Vec::new();
    let mut i: usize = start;
    while i < end
        invariant
            start <= i <= end <= bytes@.len(),
            out@ == bytes@.subrange(start as int, i as int),
        decreases end - i,
    {
        out.push(bytes[i]);
        i += 1;
        assert(out@ =~= bytes@.subrange(start as int, i as int));
    }
    out
}

/// True when the two byte strings are equal.
pub fn bytes_equal(a: &[u8], b: &[u8]) -> (r: bool)
    ensures
        r == (a@ == b@),
{
    if a.len() != b.len() {
        return false;
    }
    let mut i: usize = 0;
    while i < a.len()
        invariant
            a@.len() == b@.len(),
            0 <= i <= a@.len(),
            forall|k: int| 0 <= k < i ==> a@[k] == b@[k],
        decreases a@.len() - i,
    {
        if a[i] != b[i] {
            return false;
        }
        i += 1;
    }
    assert(a@ =~= b@);
    true
}

} // verus!
