//! How a peer is named on the command line: by address or by identifier.

use crate::address::Ipv6Address;
use crate::ipv6_text::ipv6_from_text;
use vstd::prelude::*;
use vstd::utf8::encode_utf8;

verus! {

/// A peer as the user named it.
#[derive(Clone, Debug, PartialEq, Eq)]
pub enum PeerAddress {
    /// A user identifier, to be resolved by the registry.
    Id(String),
    /// A literal IPv6 address.
    Ipv6(Ipv6Address),
}

/// The text holds a colon.
pub open spec fn has_colon(text: Seq<u8>) -> bool {
    exists|i: int| 0 <= i < text.len() && #[trigger] text[i] == 0x3a
}

/// The address that `input` is the literal of, if it is one: it holds a
/// colon and reads as an IPv6 address.
pub open spec fn literal_of(input: Seq<char>) -> Option<Seq<u16>> {
    if has_colon(encode_utf8(input)) {
        ipv6_from_text(encode_utf8(input))
    } else {
        None
    }
}

fn contains_colon(text: &[u8]) -> (yes: bool)
    ensures
        yes == has_colon(text@),
{
    let mut i: usize = 0;
    while i < text.len()
        invariant
            i <= text@.len(),
            forall|k: int| 0 <= k < i ==> text@[k] != 0x3a,
        decreases text@.len() - i,
    {
        if text[i] == 0x3a {
            return true;
        }
        i += 1;
    }
    false
}

/// Reads what the user gave for a peer: a literal IPv6 address where it is
/// one, an identifier otherwise.
pub fn parse_peer(input: &str) -> (peer: PeerAddress)
    ensures
        match literal_of(input@) {
            Some(address) => peer matches PeerAddress::Ipv6(a) && a@ == address,
            None => peer matches PeerAddress::Id(id) && id@ == input@,
        },
{
    if contains_colon(input.as_bytes()) {
        match Ipv6Address::parse(input) {
            Some(address) => {
                return PeerAddress::Ipv6(address);
            },
            None => {},
        }
    }
    PeerAddress::Id(input.to_owned())
}

} // verus!
