use vstd::prelude::*;

verus! {

/// A network endpoint: an IP address and a port.
///
/// An IPv4 address sits in the low 32 bits of `ip`, with `v6` false.
#[derive(Clone, Copy, Debug, PartialEq, Eq, Structural, Hash)]
pub struct Endpoint {
    pub ip: u128,
    pub port: u16,
    pub v6: bool,
}

impl Endpoint {
    /// An IPv4 endpoint from the four bytes of its address.
    pub fn v4(a: u8, b: u8, c: u8, d: u8, port: u16) -> (e: Endpoint)
        ensures
            e == Self::spec_v4(a, b, c, d, port),
    {
        let ip: u128 = (a as u128) * 16777216 + (b as u128) * 65536 + (c as u128) * 256 + (d as u128);
        Endpoint { ip, port, v6: false }
    }

    /// The IPv4 endpoint with the address bytes `a`, `b`, `c`, `d`, the first
    /// byte the highest.
    pub open spec fn spec_v4(a: u8, b: u8, c: u8, d: u8, port: u16) -> Endpoint {
        Endpoint {
            ip: (a as int * 16777216 + b as int * 65536 + c as int * 256 + d as int) as u128,
            port,
            v6: false,
        }
    }

    /// An IPv6 endpoint from its address as one 128-bit number.
    pub fn v6(ip: u128, port: u16) -> (e: Endpoint)
        ensures
            e == (Endpoint { ip, port, v6: true }),
    {
        Endpoint { ip, port, v6: true }
    }
}

} // verus!
