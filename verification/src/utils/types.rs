//! Addresses and prefixes.

use vstd::prelude::*;
use crate::utils::math::{be_arr_as_be_u32, be_value, u32_as_be_arr};
use crate::utils::text::{decimal, push_char, push_decimal};

verus! {

/// An IPv4 address, held as the number that its four bytes spell in network
/// order.
#[derive(Clone, Copy, Debug, PartialEq, Eq, Structural, Hash)]
pub struct Ipv4Address {
    pub value: u32,
}

/// The dotted numeral of the address whose number is `value`.
pub open spec fn dotted(value: nat) -> Seq<char> {
    decimal(value / 0x100_0000) + seq!['.'] + decimal((value / 0x1_0000) % 0x100) + seq!['.']
        + decimal((value / 0x100) % 0x100) + seq!['.'] + decimal(value % 0x100)
}

impl Ipv4Address {
    /// The address `a.b.c.d`.
    pub fn new(a: u8, b: u8, c: u8, d: u8) -> (r: Self)
        ensures
            r.value == be_value(a, b, c, d),
    {
        Ipv4Address { value: be_arr_as_be_u32([a, b, c, d]) }
    }

    /// The four bytes of the address, the first of the numeral first.
    pub fn octets(&self) -> (r: [u8; 4])
        ensures
            be_value(r[0], r[1], r[2], r[3]) == self.value,
            r[0] == self.value / 0x100_0000,
            r[1] == (self.value / 0x1_0000) % 0x100,
            r[2] == (self.value / 0x100) % 0x100,
            r[3] == self.value % 0x100,
    {
        u32_as_be_arr(self.value)
    }

    /// The numeral `a.b.c.d` of the address.
    pub fn to_string(&self) -> (r: String)
        ensures
            r@ == dotted(self.value as nat),
    {
        let o = u32_as_be_arr(self.value);
        let mut out = String::new();
        push_decimal(&mut out, o[0] as u64);
        push_char(&mut out, '.');
        push_decimal(&mut out, o[1] as u64);
        push_char(&mut out, '.');
        push_decimal(&mut out, o[2] as u64);
        push_char(&mut out, '.');
        push_decimal(&mut out, o[3] as u64);
        proof {
            assert(out@ =~= dotted(self.value as nat));
        }
        out
    }
}

/// An address with the width of its network part, written `a.b.c.d/n`.
#[derive(Clone, Copy, Debug, PartialEq, Eq, Structural, Hash)]
pub struct CidrIP {
    pub ip: Ipv4Address,
    pub netmask: u8,
}

impl CidrIP {
    /// The width of the network part is at most 32 bits.
    pub open spec fn wf(&self) -> bool {
        self.netmask <= 32
    }

    /// The numeral of the prefix.
    pub open spec fn text(&self) -> Seq<char> {
        dotted(self.ip.value as nat) + seq!['/'] + decimal(self.netmask as nat)
    }

    /// The numeral `a.b.c.d/n` of the prefix.
    pub fn to_string(&self) -> (r: String)
        ensures
            r@ == self.text(),
    {
        let mut out = self.ip.to_string();
        push_char(&mut out, '/');
        push_decimal(&mut out, self.netmask as u64);
        out
    }
}

} // verus!
