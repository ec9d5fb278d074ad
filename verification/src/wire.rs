//! Big-endian integers as they stand on the wire.

use vstd::prelude::*;

verus! {

/// The four bytes of `n`, most significant first.
pub open spec fn be32(n: u32) -> Seq<u8> {
    seq![
        (n / 0x100_0000) as u8,
        (n / 0x1_0000 % 0x100) as u8,
        (n / 0x100 % 0x100) as u8,
        (n % 0x100) as u8,
    ]
}

/// The eight bytes of `n`, most significant first.
pub open spec fn be64(n: u64) -> Seq<u8> {
    be32((n / 0x1_0000_0000) as u32) + be32((n % 0x1_0000_0000) as u32)
}

/// The number that the four bytes of `bytes` from index `at` on spell out.
pub open spec fn be32_at(bytes: Seq<u8>, at: int) -> int {
    bytes[at] * 0x100_0000 + bytes[at + 1] * 0x1_0000 + bytes[at + 2] * 0x100 + bytes[at + 3]
}

/// The number that the eight bytes of `bytes` from index `at` on spell out.
pub open spec fn be64_at(bytes: Seq<u8>, at: int) -> int {
    be32_at(bytes, at) * 0x1_0000_0000 + be32_at(bytes, at + 4)
}

/// Reading back what `be32` wrote gives the number again.
pub proof fn lemma_be32_round_trip(bytes: Seq<u8>, at: int, n: u32)
    requires
        0 <= at,
        at + 4 <= bytes.len(),
        bytes.subrange(at, at + 4) == be32(n),
    ensures
        be32_at(bytes, at) == n,
{
    let part = bytes.subrange(at, at + 4);
    assert(part[0] == bytes[at]);
    assert(part[1] == bytes[at + 1]);
    assert(part[2] == bytes[at + 2]);
    assert(part[3] == bytes[at + 3]);
}

/// Reading back what `be64` wrote gives the number again.
pub proof fn lemma_be64_round_trip(bytes: Seq<u8>, at: int, n: u64)
    requires
        0 <= at,
        at + 8 <= bytes.len(),
        bytes.subrange(at, at + 8) == be64(n),
    ensures
        be64_at(bytes, at) == n,
{
    let part = bytes.subrange(at, at + 8);
    let high = (n / 0x1_0000_0000) as u32;
    let low = (n % 0x1_0000_0000) as u32;
    assert(bytes.subrange(at, at + 4) =~= be32(high)) by {
        assert forall|i: int| 0 <= i < 4 implies bytes.subrange(at, at + 4)[i] == be32(high)[i] by {
            assert(part[i] == bytes[at + i]);
        }
    }
    assert(bytes.subrange(at + 4, at + 8) =~= be32(low)) by {
        assert forall|i: int| 0 <= i < 4 implies bytes.subrange(at + 4, at + 8)[i] == be32(low)[i] by {
            assert(part[i + 4] == bytes[at + 4 + i]);
        }
    }
    lemma_be32_round_trip(bytes, at, high);
    lemma_be32_round_trip(bytes, at + 4, low);
}

/// Appends `n` to `out` as four big-endian bytes.
pub fn put_be32(out: &mut Vec<u8>, n: u32)
    ensures
        final(out)@ == old(out)@ + be32(n),
{
    out.push((n / 0x100_0000) as u8);
    out.push((n / 0x1_0000 % 0x100) as u8);
    out.push((n / 0x100 % 0x100) as u8);
    out.push((n % 0x100) as u8);
    assert(out@ =~= old(out)@ + be32(n));
}

/// Appends `n` to `out` as eight big-endian bytes.
pub fn put_be64(out: &mut Vec<u8>, n: u64)
    ensures
        final(out)@ == old(out)@ + be64(n),
{
    put_be32(out, (n / 0x1_0000_0000) as u32);
    put_be32(out, (n % 0x1_0000_0000) as u32);
    assert(out@ =~= old(out)@ + be64(n));
}

/// Reads the big-endian 32-bit number at `at`.
pub fn get_be32(bytes: &[u8], at: usize) -> (n: u32)
    requires
        at + 4 <= bytes.len(),
    ensures
        n == be32_at(bytes@, at as int),
{
    let b0: u32 = bytes[at] as u32;
    let b1: u32 = bytes[at + 1] as u32;
    let b2: u32 = bytes[at + 2] as u32;
    let b3: u32 = bytes[at + 3] as u32;
    b0 * 0x100_0000 + b1 * 0x1_0000 + b2 * 0x100 + b3
}

/// Reads the big-endian 64-bit number at `at`.
pub fn get_be64(bytes: &[u8], at: usize) -> (n: u64)
    requires
        at + 8 <= bytes.len(),
    ensures
        n == be64_at(bytes@, at as int),
{
    let high: u64 = get_be32(bytes, at) as u64;
    let low: u64 = get_be32(bytes, at + 4) as u64;
    high * 0x1_0000_0000 + low
}

} // verus!
