//! Hardware addresses of radio peripherals.

use vstd::prelude::*;

verus! {

/// The number that six octets spell, the first octet weighing most.
pub open spec fn octets_value(o: Seq<u8>) -> int
    recommends
        o.len() == 6,
{
    o[0] as int * 0x100_0000_0000 + o[1] as int * 0x1_0000_0000 + o[2] as int * 0x100_0000
        + o[3] as int * 0x1_0000 + o[4] as int * 0x100 + o[5] as int
}

/// The number that the first three of some octets spell: the address
/// prefix, which names the maker of the device.
pub open spec fn octets_prefix(o: Seq<u8>) -> int
    recommends
        o.len() >= 3,
{
    o[0] as int * 0x1_0000 + o[1] as int * 0x100 + o[2] as int
}

/// A 48-bit hardware address, the identity of a peripheral.
#[derive(Clone, Copy, PartialEq, Eq, Structural, Debug, Hash)]
pub struct HardwareAddress {
    value: u64,
}

impl HardwareAddress {
    /// The address as a number.
    pub closed spec fn value(self) -> int {
        self.value as int
    }

    /// The first three octets of the address as a number below 2^24.
    pub open spec fn prefix(self) -> int {
        (self.value() / 0x100_0000) % 0x100_0000
    }

    /// The address with the given six octets, the first octet first.
    pub fn from_octets(o: [u8; 6]) -> (a: HardwareAddress)
        ensures
            a.value() == octets_value(o@),
            a.prefix() == octets_prefix(o@),
    {
        let v: u64 = (o[0] as u64) * 0x100_0000_0000 + (o[1] as u64) * 0x1_0000_0000 + (
        o[2] as u64) * 0x100_0000 + (o[3] as u64) * 0x1_0000 + (o[4] as u64) * 0x100 + (
        o[5] as u64);
        HardwareAddress { value: v }
    }

    /// The address with the given number, where that is below 2^48.
    pub fn from_value(v: u64) -> (r: Option<HardwareAddress>)
        ensures
            r is Some <==> v < 0x1_0000_0000_0000,
            r is Some ==> r->0.value() == v,
    {
        if v < 0x1_0000_0000_0000 {
            Some(HardwareAddress { value: v })
        } else {
            None
        }
    }

    /// The address as a number.
    pub fn to_value(&self) -> (v: u64)
        ensures
            v == self.value(),
    {
        self.value
    }

    /// The first three octets of the address as a number.
    pub fn prefix_key(&self) -> (k: u32)
        ensures
            k == self.prefix(),
            k < 0x100_0000,
    {
        ((self.value / 0x100_0000) % 0x100_0000) as u32
    }

    /// Tells whether two addresses are the same.
    pub fn same(&self, other: &HardwareAddress) -> (b: bool)
        ensures
            b == (*self == *other),
            b == (self.value() == other.value()),
    {
        self.value == other.value
    }
}

} // verus!
