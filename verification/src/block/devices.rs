use vstd::prelude::*;

use crate::errors::KernelError;
use crate::misc::{bytes_equal, copy_range};
use crate::shell::is_continuation;
use super::{DeviceID, MinorDeviceID};

verus! {

/// A registered block driver as device names see it: the prefix of its devices' names and the
/// number of devices it has.
pub struct BlockDriverInfo {
    pub prefix: Vec<u8>,
    pub num_devices: usize,
}

/// An ASCII decimal digit.
pub open spec fn is_digit(b: u8) -> bool {
    48 <= b && b <= 57
}

/// The number that the decimal digits `d` spell.
pub open spec fn spec_decimal(d: Seq<u8>) -> int
    decreases d.len(),
{
    if d.len() == 0 {
        0
    } else {
        spec_decimal(d.subrange(0, d.len() - 1)) * 10 + (d[d.len() - 1] - 48)
    }
}

/// The digits of a minor number's text: the text without a leading `+`.
pub open spec fn spec_minor_digits(s: Seq<u8>) -> Seq<u8> {
    if s.len() > 0 && s[0] == 43 { s.subrange(1, s.len() as int) } else { s }
}

/// Every byte of `d` is a decimal digit.
pub open spec fn all_digits(d: Seq<u8>) -> bool {
    forall|i: int| 0 <= i < d.len() ==> is_digit(#[trigger] d[i])
}

/// The minor number that the text `s` gives as a decimal number from 0 to 255, with an optional
/// leading `+`; none for any other text.
pub open spec fn spec_parse_minor(s: Seq<u8>) -> Option<MinorDeviceID> {
    let digits = spec_minor_digits(s);
    if digits.len() == 0 || !all_digits(digits) || spec_decimal(digits) > 255 {
        None
    } else {
        Some(spec_decimal(digits) as u8)
    }
}

/// Position `k` of `name` starts a character (or ends the name).
pub open spec fn char_boundary(name: Seq<u8>, k: int) -> bool {
    k == name.len() || (k < name.len() && !is_continuation(name[k]))
}

/// The device named `name` among the drivers from `i` on: the first driver whose prefix begins
/// the name, with the minor number that the rest of the name spells if that driver has such a
/// device, the driver being numbered by its place in the list (modulo 256); `NoSuchDevice`
/// otherwise.
pub open spec fn spec_lookup_device(drivers: Seq<BlockDriverInfo>, name: Seq<u8>, i: int) -> Result<DeviceID, KernelError>
    decreases drivers.len() - i,
{
    if i < 0 || i >= drivers.len() {
        Err(KernelError::NoSuchDevice)
    } else {
        let p = drivers[i].prefix@;
        if p.len() <= name.len() && p == name.subrange(0, p.len() as int) {
            match spec_parse_minor(name.subrange(p.len() as int, name.len() as int)) {
                Some(minor) => if (minor as usize) < drivers[i].num_devices {
                    Ok(DeviceID((i % 256) as u8, minor))
                } else {
                    Err(KernelError::NoSuchDevice)
                },
                None => Err(KernelError::NoSuchDevice),
            }
        } else {
            spec_lookup_device(drivers, name, i + 1)
        }
    }
}

/// The names for which the search does not slice the name past its end or inside a character:
/// every prefix compared from driver `i` on is no longer than the name and ends at a character
/// boundary of it.
pub open spec fn lookup_device_safe(drivers: Seq<BlockDriverInfo>, name: Seq<u8>, i: int) -> bool
    decreases drivers.len() - i,
{
    if i < 0 || i >= drivers.len() {
        true
    } else {
        let p = drivers[i].prefix@;
        &&& p.len() <= name.len()
        &&& char_boundary(name, p.len() as int)
        &&& p != name.subrange(0, p.len() as int) ==> lookup_device_safe(drivers, name, i + 1)
    }
}

/// A decimal number grows as digits are added to it.
proof fn lemma_decimal_grows(d: Seq<u8>, k: int)
    requires
        0 <= k <= d.len(),
        forall|i: int| 0 <= i < d.len() ==> is_digit(#[trigger] d[i]),
    ensures
        spec_decimal(d.subrange(0, k)) <= spec_decimal(d),
        spec_decimal(d) >= 0,
    decreases d.len(),
{
    if d.len() > 0 {
        let e = d.subrange(0, d.len() - 1);
        assert forall|i: int| 0 <= i < e.len() implies is_digit(#[trigger] e[i]) by {
            assert(e[i] == d[i]);
        }
        if k < d.len() {
            lemma_decimal_grows(e, k);
            assert(e.subrange(0, k) =~= d.subrange(0, k));
        } else {
            assert(d.subrange(0, k) =~= d);
            lemma_decimal_grows(e, 0);
        }
    } else {
        assert(d.subrange(0, k) =~= d);
    }
}

/// Parses the minor number of a device name: a decimal number from 0 to 255, with an optional
/// leading `+`.
pub fn parse_minor(s: &[u8]) -> (r: Option<MinorDeviceID>)
    ensures
        r == spec_parse_minor(s@),
{
    let len = s.len();
    if len == 0 {
        return None;
    }
    let start: usize = if s[0] == 43 { 1 } else { 0 };
    let ghost digits = spec_minor_digits(s@);
    assert(digits =~= s@.subrange(start as int, len as int));
    if start == len {
        return None;
    }
    let mut value: u32 = 0;
    let mut i: usize = start;
    while i < len
        invariant
            start <= i <= len,
            len == s@.len(),
            start < len,
            digits == s@.subrange(start as int, len as int),
            digits == spec_minor_digits(s@),
            value as int == spec_decimal(digits.subrange(0, i - start)),
            value <= 255,
            forall|k: int| 0 <= k < i - start ==> is_digit(#[trigger] digits[k]),
        decreases len - i,
    {
        let b = s[i];
        if !(48 <= b && b <= 57) {
            assert(!is_digit(digits[i - start]));
            assert(!all_digits(digits));
            return None;
        }
        let ghost next = digits.subrange(0, i - start + 1);
        proof {
            assert(next.subrange(0, next.len() - 1) =~= digits.subrange(0, i - start));
            assert(next[next.len() - 1] == b);
            assert(spec_decimal(next) == value * 10 + (b - 48));
        }
        value = value * 10 + (b - 48) as u32;
        i += 1;
        if value > 255 {
            proof {
                let j = i - start;
                assert(next == digits.subrange(0, j));
                if all_digits(digits) {
                    lemma_decimal_grows(digits, j);
                }
            }
            return None;
        }
    }
    assert(digits.subrange(0, len - start) =~= digits);
    Some(value as u8)
}

/// The device named `name`: the first driver whose prefix begins the name, with the minor
/// number that the rest of the name spells; `NoSuchDevice` where that driver has no such device
/// or no driver's prefix begins the name.
pub fn lookup_device(drivers: &Vec<BlockDriverInfo>, name: &[u8]) -> (r: Result<DeviceID, KernelError>)
    requires
        lookup_device_safe(drivers@, name@, 0),
    ensures
        r == spec_lookup_device(drivers@, name@, 0),
{
    let mut i: usize = 0;
    while i < drivers.len()
        invariant
            0 <= i <= drivers@.len(),
            spec_lookup_device(drivers@, name@, 0) == spec_lookup_device(drivers@, name@, i as int),
            lookup_device_safe(drivers@, name@, i as int),
        decreases drivers@.len() - i,
    {
        let plen = drivers[i].prefix.len();
        let head = copy_range(name, 0, plen);
        if bytes_equal(drivers[i].prefix.as_slice(), head.as_slice()) {
            let rest = copy_range(name, plen, name.len());
            match parse_minor(rest.as_slice()) {
                None => { return Err(KernelError::NoSuchDevice); },
                Some(minor) => {
                    if (minor as usize) < drivers[i].num_devices {
                        return Ok(DeviceID((i % 256) as u8, minor));
                    }
                    return Err(KernelError::NoSuchDevice);
                },
            }
        }
        i += 1;
    }
    Err(KernelError::NoSuchDevice)
}

} // verus!
