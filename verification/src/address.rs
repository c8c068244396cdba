//! Network addresses and the rule that tells which of them are reachable from
//! the public Internet.

use vstd::prelude::*;

verus! {

/// An IPv4 address by its four octets, or an IPv6 address by its 128 bits in
/// network order.
#[derive(Clone, Copy, Debug, PartialEq, Eq, Hash, Structural)]
pub enum IpAddr {
    V4(u8, u8, u8, u8),
    V6(u128),
}

/// Whether the IPv4 address `a.b.c.d` is routable on the public Internet.
///
/// The special-purpose blocks are left out: "this network" (`0.0.0.0/8`),
/// private use (`10.0.0.0/8`, `172.16.0.0/12`, `192.168.0.0/16`), shared
/// address space (`100.64.0.0/10`), loopback (`127.0.0.0/8`), link-local
/// (`169.254.0.0/16`), protocol assignments (`192.0.0.0/24`, but for
/// `192.0.0.9` and `192.0.0.10`), documentation (`192.0.2.0/24`,
/// `198.51.100.0/24`, `203.0.113.0/24`), benchmarking (`198.18.0.0/15`),
/// multicast (`224.0.0.0/4`) and reserved (`240.0.0.0/4`, which holds the
/// broadcast address).
pub open spec fn v4_is_global(a: u8, b: u8, c: u8, d: u8) -> bool {
    &&& a != 0
    &&& a != 10
    &&& !(a == 100 && 64 <= b <= 127)
    &&& a != 127
    &&& !(a == 169 && b == 254)
    &&& !(a == 172 && 16 <= b <= 31)
    &&& !(a == 192 && b == 0 && c == 0 && d != 9 && d != 10)
    &&& !(a == 192 && b == 0 && c == 2)
    &&& !(a == 192 && b == 168)
    &&& !(a == 198 && 18 <= b <= 19)
    &&& !(a == 198 && b == 51 && c == 100)
    &&& !(a == 203 && b == 0 && c == 113)
    &&& a < 224
}

/// Whether the IPv6 address with the bits `x` is routable on the public
/// Internet.
///
/// Left out are the unspecified address (`::`), loopback (`::1`), unique local
/// addresses (`fc00::/7`), link-local unicast (`fe80::/10`), documentation
/// (`2001:db8::/32`) and multicast (`ff00::/8`).
pub open spec fn v6_is_global(x: u128) -> bool {
    &&& x != 0
    &&& x != 1
    &&& !(0xfc00_0000_0000_0000_0000_0000_0000_0000 <= x <= 0xfdff_ffff_ffff_ffff_ffff_ffff_ffff_ffff)
    &&& !(0xfe80_0000_0000_0000_0000_0000_0000_0000 <= x <= 0xfebf_ffff_ffff_ffff_ffff_ffff_ffff_ffff)
    &&& !(0x2001_0db8_0000_0000_0000_0000_0000_0000 <= x <= 0x2001_0db8_ffff_ffff_ffff_ffff_ffff_ffff)
    &&& x < 0xff00_0000_0000_0000_0000_0000_0000_0000
}

/// The integers by which duplicates among addresses are told apart: the
/// family (4 or 6), then the octets of an IPv4 address, then the bits of an
/// IPv6 address.
pub open spec fn address_key(ip: IpAddr) -> (u8, u8, u8, u8, u8, u128) {
    match ip {
        IpAddr::V4(a, b, c, d) => (4u8, a, b, c, d, 0u128),
        IpAddr::V6(x) => (6u8, 0u8, 0u8, 0u8, 0u8, x),
    }
}

/// Two addresses with the same key are the same address.
pub proof fn lemma_address_key_injective(x: IpAddr, y: IpAddr)
    requires
        address_key(x) == address_key(y),
    ensures
        x == y,
{
}

impl IpAddr {
    /// The IPv4 address `a.b.c.d`.
    pub fn v4(a: u8, b: u8, c: u8, d: u8) -> (ip: IpAddr)
        ensures
            ip == IpAddr::V4(a, b, c, d),
    {
        IpAddr::V4(a, b, c, d)
    }

    /// The IPv6 address with the given bits, most significant first.
    pub fn v6(bits: u128) -> (ip: IpAddr)
        ensures
            ip == IpAddr::V6(bits),
    {
        IpAddr::V6(bits)
    }

    /// Whether the address is routable on the public Internet.
    pub open spec fn is_global_spec(&self) -> bool {
        match *self {
            IpAddr::V4(a, b, c, d) => v4_is_global(a, b, c, d),
            IpAddr::V6(x) => v6_is_global(x),
        }
    }

    /// Whether the address is routable on the public Internet.
    #[verifier::when_used_as_spec(is_global_spec)]
    pub fn is_global(&self) -> (g: bool)
        ensures
            g == self.is_global_spec(),
    {
        match *self {
            IpAddr::V4(a, b, c, d) => {
                !(a == 0 || a == 10 || (a == 100 && 64 <= b && b <= 127) || a == 127 || (a == 169
                    && b == 254) || (a == 172 && 16 <= b && b <= 31) || (a == 192 && b == 0 && c
                    == 0 && d != 9 && d != 10) || (a == 192 && b == 0 && c == 2) || (a == 192 && b
                    == 168) || (a == 198 && 18 <= b && b <= 19) || (a == 198 && b == 51 && c
                    == 100) || (a == 203 && b == 0 && c == 113) || a >= 224)
            },
            IpAddr::V6(x) => {
                !(x == 0 || x == 1 || (0xfc00_0000_0000_0000_0000_0000_0000_0000 <= x && x
                    <= 0xfdff_ffff_ffff_ffff_ffff_ffff_ffff_ffff) || (
                0xfe80_0000_0000_0000_0000_0000_0000_0000 <= x && x
                    <= 0xfebf_ffff_ffff_ffff_ffff_ffff_ffff_ffff) || (
                0x2001_0db8_0000_0000_0000_0000_0000_0000 <= x && x
                    <= 0x2001_0db8_ffff_ffff_ffff_ffff_ffff_ffff) || x
                    >= 0xff00_0000_0000_0000_0000_0000_0000_0000)
            },
        }
    }

    /// The key of this address, see [`address_key`].
    pub fn key(&self) -> (k: (u8, u8, u8, u8, u8, u128))
        ensures
            k == address_key(*self),
    {
        match *self {
            IpAddr::V4(a, b, c, d) => (4, a, b, c, d, 0),
            IpAddr::V6(x) => (6, 0, 0, 0, 0, x),
        }
    }
}

} // verus!
