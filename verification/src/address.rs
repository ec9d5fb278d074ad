//! IPv6 addresses and UDP endpoints as plain values.

use vstd::prelude::*;

verus! {

/// An IPv6 address: eight 16-bit groups, the first one first.
#[derive(Clone, Copy, Debug, PartialEq, Eq, Hash)]
pub struct Ipv6Address {
    pub segments: [u16; 8],
}

impl View for Ipv6Address {
    type V = Seq<u16>;

    open spec fn view(&self) -> Seq<u16> {
        self.segments@
    }
}

impl Ipv6Address {
    /// The address with these eight groups.
    pub fn new(segments: [u16; 8]) -> (address: Ipv6Address)
        ensures
            address@ == segments@,
    {
        Ipv6Address { segments }
    }

    /// Whether `self` and `other` are the same address.
    pub fn same_as(&self, other: &Ipv6Address) -> (same: bool)
        ensures
            same == (self@ == other@),
    {
        let mut i: usize = 0;
        while i < 8
            invariant
                i <= 8,
                forall|k: int| 0 <= k < i ==> self.segments[k] == other.segments[k],
            decreases 8 - i,
        {
            if self.segments[i] != other.segments[i] {
                return false;
            }
            i += 1;
        }
        assert(self@ =~= other@);
        true
    }
}

/// An address together with a UDP port.
#[derive(Clone, Copy, Debug, PartialEq, Eq, Hash)]
pub struct SocketAddress {
    pub address: Ipv6Address,
    pub port: u16,
}

/// An endpoint as a pair of groups and port.
pub struct Endpoint {
    pub address: Seq<u16>,
    pub port: u16,
}

impl View for SocketAddress {
    type V = Endpoint;

    open spec fn view(&self) -> Endpoint {
        Endpoint { address: self.address@, port: self.port }
    }
}

impl SocketAddress {
    /// Whether `self` and `other` are the same endpoint.
    pub fn same_as(&self, other: &SocketAddress) -> (same: bool)
        ensures
            same == (self@ == other@),
    {
        self.port == other.port && self.address.same_as(&other.address)
    }
}

} // verus!
