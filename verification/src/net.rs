//! Choosing the local IPv6 address, and finding the peer's.
//!
//! The addresses of this host are ranked: a stable address before a
//! temporary one, then global before unique-local before link-local scope.
//! Whether an address is temporary stands in the kernel's table of IPv6
//! addresses (`/proc/net/if_inet6`), which is read here as text.

use crate::address::Ipv6Address;
use crate::config::Config;
use crate::error::ErrorKind;
use crate::ipv6_text::{hex_char, hex_digit, hex_value, ipv6_text, split, split_fields, views};
use crate::text::ascii_chars;
use crate::peer::{literal_of, parse_peer, PeerAddress};
use crate::server::UpdateRequest;
use vstd::prelude::*;
use vstd::utf8::encode_utf8;

verus! {

/// How far an address reaches.
#[derive(Clone, Copy, Debug, PartialEq, Eq, PartialOrd, Ord, Structural)]
pub enum Ipv6Scope {
    LinkLocal,
    UniqueLocal,
    Global,
}

/// An address of this host with what is known of it.
#[derive(Clone, Debug)]
pub struct Ipv6Info {
    pub addr: Ipv6Address,
    pub interface: String,
    pub is_temporary: bool,
    pub scope: Ipv6Scope,
}

/// The loopback address `::1`.
pub open spec fn is_loopback(addr: Seq<u16>) -> bool {
    addr =~= seq![0u16, 0u16, 0u16, 0u16, 0u16, 0u16, 0u16, 1u16]
}

/// A multicast address, `ff00::/8`.
pub open spec fn is_multicast(addr: Seq<u16>) -> bool {
    addr[0] >= 0xff00
}

/// The scope of an address: `fc00::/7` is unique-local, `2000::/3` is
/// global, and everything else, with `fe80::/10` and the loopback address,
/// counts as link-local.
pub open spec fn scope_of(addr: Seq<u16>) -> Ipv6Scope {
    if is_loopback(addr) {
        Ipv6Scope::LinkLocal
    } else if 0xfc00 <= addr[0] <= 0xfdff {
        Ipv6Scope::UniqueLocal
    } else if 0x2000 <= addr[0] <= 0x3fff {
        Ipv6Scope::Global
    } else {
        Ipv6Scope::LinkLocal
    }
}

/// The score of a candidate: 1000 for a stable address, and 100, 50 or 10
/// for global, unique-local or link-local scope.
pub open spec fn score_of(is_temporary: bool, scope: Ipv6Scope) -> u32 {
    let stable: u32 = if is_temporary {
        0
    } else {
        1000
    };
    let reach: u32 = match scope {
        Ipv6Scope::Global => 100,
        Ipv6Scope::UniqueLocal => 50,
        Ipv6Scope::LinkLocal => 10,
    };
    (stable + reach) as u32
}

impl Ipv6Info {
    /// The score of this candidate.
    pub open spec fn spec_score(&self) -> u32 {
        score_of(self.is_temporary, self.scope)
    }

    /// The score of this candidate; the higher, the better.
    #[verifier::when_used_as_spec(spec_score)]
    pub fn score(&self) -> (score: u32)
        ensures
            score == self.spec_score(),
    {
        let mut score: u32 = 0;
        if !self.is_temporary {
            score += 1000;
        }
        score += match self.scope {
            Ipv6Scope::Global => 100,
            Ipv6Scope::UniqueLocal => 50,
            Ipv6Scope::LinkLocal => 10,
        };
        score
    }
}

/// Whether `addr` is `::1`.
pub fn loopback(addr: &Ipv6Address) -> (yes: bool)
    ensures
        yes == is_loopback(addr@),
{
    let s = &addr.segments;
    s[0] == 0 && s[1] == 0 && s[2] == 0 && s[3] == 0 && s[4] == 0 && s[5] == 0 && s[6] == 0 && s[7]
        == 1
}

/// Whether `addr` is a multicast address.
pub fn multicast(addr: &Ipv6Address) -> (yes: bool)
    ensures
        yes == is_multicast(addr@),
{
    let first: u16 = addr.segments[0];
    assert((first & 0xff00 == 0xff00) <==> first >= 0xff00) by (bit_vector);
    first & 0xff00 == 0xff00
}

/// The scope of `addr`.
pub fn classify_ipv6(addr: &Ipv6Address) -> (scope: Ipv6Scope)
    ensures
        scope == scope_of(addr@),
{
    if loopback(addr) {
        return Ipv6Scope::LinkLocal;
    }
    let first: u16 = addr.segments[0];
    assert((first & 0xffc0 == 0xfe80) <==> (0xfe80 <= first && first <= 0xfebf)) by (bit_vector);
    assert((first & 0xfe00 == 0xfc00) <==> (0xfc00 <= first && first <= 0xfdff)) by (bit_vector);
    assert((first & 0xe000 == 0x2000) <==> (0x2000 <= first && first <= 0x3fff)) by (bit_vector);
    if first & 0xffc0 == 0xfe80 {
        return Ipv6Scope::LinkLocal;
    }
    if first & 0xfe00 == 0xfc00 {
        return Ipv6Scope::UniqueLocal;
    }
    if first & 0xe000 == 0x2000 {
        return Ipv6Scope::Global;
    }
    Ipv6Scope::LinkLocal
}

/// An IPv6 address of a network interface, as the system reports it.
#[derive(Clone, Debug)]
pub struct InterfaceAddress {
    pub name: String,
    pub addr: Ipv6Address,
}

/// A candidate as plain values.
pub struct Candidate {
    pub addr: Seq<u16>,
    pub interface: Seq<char>,
    pub is_temporary: bool,
    pub scope: Ipv6Scope,
}

impl View for Ipv6Info {
    type V = Candidate;

    open spec fn view(&self) -> Candidate {
        Candidate {
            addr: self.addr@,
            interface: self.interface@,
            is_temporary: self.is_temporary,
            scope: self.scope,
        }
    }
}

/// ASCII white space.
pub open spec fn is_space(b: u8) -> bool {
    b == 0x20 || (0x09 <= b && b <= 0x0d)
}

/// The words found so far and the word that is being read.
pub struct Scan {
    pub done: Seq<Seq<u8>>,
    pub word: Seq<u8>,
}

/// Reads `text` from left to right: white space ends a word.
pub open spec fn scan_words(text: Seq<u8>) -> Scan
    decreases text.len(),
{
    if text.len() == 0 {
        Scan { done: Seq::empty(), word: Seq::empty() }
    } else {
        let before = scan_words(text.drop_last());
        if is_space(text.last()) {
            if before.word.len() > 0 {
                Scan { done: before.done.push(before.word), word: Seq::empty() }
            } else {
                before
            }
        } else {
            Scan { done: before.done, word: before.word.push(text.last()) }
        }
    }
}

/// The words of `text`: what stands between white space.
pub open spec fn words(text: Seq<u8>) -> Seq<Seq<u8>> {
    let scan = scan_words(text);
    if scan.word.len() > 0 {
        scan.done.push(scan.word)
    } else {
        scan.done
    }
}

/// One of the four hexadecimal digits of a group, the highest first.
pub open spec fn nibble(value: u16, at: int) -> u16 {
    if at == 0 {
        value / 4096
    } else if at == 1 {
        value / 256 % 16
    } else if at == 2 {
        value / 16 % 16
    } else {
        value % 16
    }
}

/// An address as the kernel's table writes it: 32 lower-case hexadecimal
/// digits.
pub open spec fn padded_hex(addr: Seq<u16>) -> Seq<u8> {
    Seq::new(32, |i: int| hex_char(nibble(addr[i / 4], i % 4)))
}

/// The digits of a field: all of it, but for a `+` at its start.
pub open spec fn unsigned_part(field: Seq<u8>) -> Seq<u8> {
    if field.len() > 0 && field[0] == 0x2b {
        field.skip(1)
    } else {
        field
    }
}

/// Every byte is a hexadecimal digit.
pub open spec fn all_hex(digits: Seq<u8>) -> bool {
    forall|i: int| 0 <= i < digits.len() ==> hex_digit(#[trigger] digits[i]) is Some
}

/// The number that a field of hexadecimal digits stands for, if it is one
/// that fits in 32 bits; a `+` may stand before the digits.
pub open spec fn flags_value(field: Seq<u8>) -> Option<int> {
    let digits = unsigned_part(field);
    if digits.len() > 0 && all_hex(digits) && hex_value(digits) <= u32::MAX {
        Some(hex_value(digits))
    } else {
        None
    }
}

/// What a line of the table says of the address: whether it is temporary,
/// if the line is about this address and its flags can be read. The address
/// is the first word and the flags are the fifth; the lowest bit of the
/// flags marks a temporary address.
pub open spec fn line_verdict(line: Seq<u8>, addr_hex: Seq<u8>) -> Option<bool> {
    let w = words(line);
    if w.len() >= 5 && w[0] == addr_hex && flags_value(w[4]) is Some {
        Some(flags_value(w[4])->0 % 2 == 1)
    } else {
        None
    }
}

/// The verdict of the first line that has one; `false` if none has.
pub open spec fn first_verdict(lines: Seq<Seq<u8>>, addr_hex: Seq<u8>) -> bool
    decreases lines.len(),
{
    if lines.len() == 0 {
        false
    } else {
        match line_verdict(lines[0], addr_hex) {
            Some(verdict) => verdict,
            None => first_verdict(lines.skip(1), addr_hex),
        }
    }
}

/// Whether the table marks `addr` as temporary.
pub open spec fn temporary_in(table: Seq<u8>, addr: Seq<u16>) -> bool {
    first_verdict(split(table, 0x0a), padded_hex(addr))
}

/// Cuts `text` into its words.
pub fn split_words(text: &[u8]) -> (out: Vec<Vec<u8>>)
    ensures
        views(out@) == words(text@),
{
    let mut done: Vec<Vec<u8>> = Vec::new();
    let mut word: Vec<u8> = Vec::new();
    let mut i: usize = 0;
    assert(text@.take(0) =~= Seq::<u8>::empty());
    assert(views(done@) =~= scan_words(text@.take(0)).done);
    while i < text.len()
        invariant
            i <= text@.len(),
            views(done@) == scan_words(text@.take(i as int)).done,
            word@ == scan_words(text@.take(i as int)).word,
        decreases text@.len() - i,
    {
        let b: u8 = text[i];
        let ghost before = views(done@);
        proof {
            assert(text@.take(i + 1).drop_last() =~= text@.take(i as int));
            assert(text@.take(i + 1).last() == b);
        }
        if b == 0x20 || (b >= 0x09 && b <= 0x0d) {
            if word.len() > 0 {
                let ghost w = word@;
                done.push(word);
                word = Vec::new();
                assert(views(done@) =~= before.push(w));
            }
        } else {
            word.push(b);
        }
        i += 1;
    }
    assert(text@.take(i as int) =~= text@);
    if word.len() > 0 {
        let ghost before = views(done@);
        let ghost w = word@;
        done.push(word);
        assert(views(done@) =~= before.push(w));
    }
    done
}

/// The address as the kernel's table writes it.
pub fn padded_hex_of(addr: &Ipv6Address) -> (text: Vec<u8>)
    ensures
        text@ == padded_hex(addr@),
{
    let mut text: Vec<u8> = Vec::new();
    let mut i: usize = 0;
    while i < 8
        invariant
            i <= 8,
            text@.len() == 4 * i,
            forall|k: int| 0 <= k < 4 * i ==> text@[k] == hex_char(nibble(addr@[k / 4], k % 4)),
        decreases 8 - i,
    {
        let v: u16 = addr.segments[i];
        text.push(hex_byte(v / 4096));
        text.push(hex_byte(v / 256 % 16));
        text.push(hex_byte(v / 16 % 16));
        text.push(hex_byte(v % 16));
        i += 1;
    }
    assert(text@ =~= padded_hex(addr@));
    text
}

fn hex_byte(digit: u16) -> (c: u8)
    requires
        digit < 16,
    ensures
        c == hex_char(digit),
{
    if digit < 10 {
        0x30 + digit as u8
    } else {
        0x61 + (digit as u8 - 10)
    }
}

fn hex_digit_value(b: u8) -> (digit: Option<u64>)
    ensures
        match digit {
            Some(d) => hex_digit(b) == Some(d as int) && d < 16,
            None => hex_digit(b) is None,
        },
{
    if b >= 0x30 && b <= 0x39 {
        Some((b - 0x30) as u64)
    } else if b >= 0x61 && b <= 0x66 {
        Some((b - 0x61 + 10) as u64)
    } else if b >= 0x41 && b <= 0x46 {
        Some((b - 0x41 + 10) as u64)
    } else {
        None
    }
}

/// More digits never make a smaller number.
proof fn lemma_hex_value_grows(digits: Seq<u8>, upto: int)
    requires
        0 <= upto <= digits.len(),
        all_hex(digits),
    ensures
        0 <= hex_value(digits.take(upto)) <= hex_value(digits),
    decreases digits.len() - upto,
{
    if upto == digits.len() {
        assert(digits.take(upto) =~= digits);
        lemma_hex_value_positive(digits);
    } else {
        lemma_hex_value_grows(digits, upto + 1);
        assert(digits.take(upto + 1).drop_last() =~= digits.take(upto));
        assert(digits.take(upto + 1).last() == digits[upto]);
        lemma_hex_value_positive(digits.take(upto));
    }
}

/// Digits spell no negative number.
proof fn lemma_hex_value_positive(digits: Seq<u8>)
    requires
        all_hex(digits),
    ensures
        0 <= hex_value(digits),
    decreases digits.len(),
{
    if digits.len() > 0 {
        lemma_hex_value_positive(digits.drop_last());
    }
}

/// Reads a field of flags.
pub fn parse_flags(field: &[u8]) -> (flags: Option<u32>)
    ensures
        match flags {
            Some(v) => flags_value(field@) == Some(v as int),
            None => flags_value(field@) is None,
        },
{
    let start: usize = if field.len() > 0 && field[0] == 0x2b {
        1
    } else {
        0
    };
    let ghost digits = unsigned_part(field@);
    if start == field.len() {
        return None;
    }
    let mut value: u64 = 0;
    let mut i: usize = start;
    assert(digits.take(0) =~= Seq::<u8>::empty());
    while i < field.len()
        invariant
            start <= i <= field@.len(),
            digits == unsigned_part(field@),
            digits.len() == field@.len() - start,
            digits.len() > 0,
            forall|k: int| 0 <= k < digits.len() ==> digits[k] == field@[k + start],
            value == hex_value(digits.take(i - start)),
            value <= u32::MAX,
            all_hex(digits.take(i - start)),
        decreases field@.len() - i,
    {
        let ghost read = digits.take(i - start + 1);
        proof {
            assert(read.drop_last() =~= digits.take(i - start));
            assert(read.last() == field@[i as int]);
        }
        match hex_digit_value(field[i]) {
            Some(d) => {
                value = value * 16 + d;
                assert(all_hex(read)) by {
                    assert forall|k: int| 0 <= k < read.len() implies hex_digit(
                        #[trigger] read[k],
                    ) is Some by {
                        if k < read.len() - 1 {
                            assert(read[k] == digits.take(i - start)[k]);
                        }
                    }
                }
                if value > 0xffff_ffff {
                    proof {
                        if all_hex(digits) {
                            lemma_hex_value_grows(digits, i - start + 1);
                        }
                    }
                    return None;
                }
            },
            None => {
                assert(hex_digit(digits[i - start]) is None);
                return None;
            },
        }
        i += 1;
    }
    assert(digits.take(i - start) =~= digits);
    Some(value as u32)
}

fn same_bytes(a: &[u8], b: &[u8]) -> (same: bool)
    ensures
        same == (a@ == b@),
{
    if a.len() != b.len() {
        return false;
    }
    let mut i: usize = 0;
    while i < a.len()
        invariant
            i <= a@.len(),
            a@.len() == b@.len(),
            forall|k: int| 0 <= k < i ==> a@[k] == b@[k],
        decreases a@.len() - i,
    {
        if a[i] != b[i] {
            return false;
        }
        i += 1;
    }
    assert(a@ =~= b@);
    true
}

/// Whether the kernel's table of IPv6 addresses, given as its text, marks
/// `addr` as a temporary address. An address that the table does not hold
/// is not temporary.
pub fn is_temporary_address(addr: &Ipv6Address, inet6_table: &str) -> (yes: bool)
    ensures
        yes == temporary_in(encode_utf8(inet6_table@), addr@),
{
    let table = inet6_table.as_bytes();
    let lines = split_fields(table, 0x0a);
    let addr_hex = padded_hex_of(addr);
    let ghost all = views(lines@);
    let mut i: usize = 0;
    assert(all.skip(0) =~= all);
    while i < lines.len()
        invariant
            i <= lines@.len(),
            all == views(lines@),
            all == split(encode_utf8(inet6_table@), 0x0a),
            addr_hex@ == padded_hex(addr@),
            first_verdict(all, addr_hex@) == first_verdict(all.skip(i as int), addr_hex@),
        decreases lines@.len() - i,
    {
        let parts = split_words(lines[i].as_slice());
        proof {
            assert(all.skip(i as int)[0] == lines@[i as int]@);
            assert(all.skip(i as int).skip(1) =~= all.skip(i + 1));
            if parts@.len() >= 5 {
                assert(views(parts@)[0] == parts@[0]@);
                assert(views(parts@)[4] == parts@[4]@);
            }
        }
        if parts.len() >= 5 && same_bytes(parts[0].as_slice(), addr_hex.as_slice()) {
            match parse_flags(parts[4].as_slice()) {
                Some(flags) => {
                    proof {
                        let line = all.skip(i as int)[0];
                        assert(words(line) == views(parts@));
                        assert(line_verdict(line, addr_hex@) == Some(flags % 2 == 1));
                    }
                    return flags % 2 == 1;
                },
                None => {},
            }
        }
        i += 1;
    }
    false
}

/// An address that may be offered to a peer: neither loopback nor multicast.
pub open spec fn usable(addr: Seq<u16>) -> bool {
    !is_loopback(addr) && !is_multicast(addr)
}

/// The candidate that an interface address gives.
pub open spec fn candidate_of(iface: InterfaceAddress, table: Seq<u8>) -> Candidate {
    Candidate {
        addr: iface.addr@,
        interface: iface.name@,
        is_temporary: temporary_in(table, iface.addr@),
        scope: scope_of(iface.addr@),
    }
}

/// The candidates among the interface addresses, in their order.
pub open spec fn candidates(interfaces: Seq<InterfaceAddress>, table: Seq<u8>) -> Seq<Candidate>
    decreases interfaces.len(),
{
    if interfaces.len() == 0 {
        Seq::empty()
    } else {
        let before = candidates(interfaces.drop_last(), table);
        if usable(interfaces.last().addr@) {
            before.push(candidate_of(interfaces.last(), table))
        } else {
            before
        }
    }
}

/// The candidates with this score, in their order.
pub open spec fn with_score(list: Seq<Candidate>, score: u32) -> Seq<Candidate>
    decreases list.len(),
{
    if list.len() == 0 {
        Seq::empty()
    } else {
        let before = with_score(list.drop_last(), score);
        if score_of(list.last().is_temporary, list.last().scope) == score {
            before.push(list.last())
        } else {
            before
        }
    }
}

/// The candidates from the best score to the worst; those with the same
/// score stay in their order.
pub open spec fn ranked(list: Seq<Candidate>) -> Seq<Candidate> {
    with_score(list, 1100) + with_score(list, 1050) + with_score(list, 1010) + with_score(list, 100)
        + with_score(list, 50) + with_score(list, 10)
}

/// The candidates as plain values.
pub open spec fn infos(list: Seq<Ipv6Info>) -> Seq<Candidate> {
    Seq::new(list.len(), |i: int| list[i]@)
}

/// Ranking loses no candidate and adds none.
pub proof fn lemma_ranked_keeps_all(list: Seq<Candidate>)
    ensures
        ranked(list).len() == list.len(),
    decreases list.len(),
{
    if list.len() > 0 {
        lemma_ranked_keeps_all(list.drop_last());
    }
}

/// The candidates with a score are candidates of the list, with that score,
/// and every candidate of the list with that score is among them.
pub proof fn lemma_with_score(list: Seq<Candidate>, score: u32)
    ensures
        forall|i: int|
            0 <= i < with_score(list, score).len() ==> {
                &&& score_of(
                    (#[trigger] with_score(list, score)[i]).is_temporary,
                    with_score(list, score)[i].scope,
                ) == score
                &&& list.contains(with_score(list, score)[i])
            },
        forall|i: int|
            0 <= i < list.len() && score_of((#[trigger] list[i]).is_temporary, list[i].scope)
                == score ==> with_score(list, score).contains(list[i]),
    decreases list.len(),
{
    if list.len() > 0 {
        let front = list.drop_last();
        let picked = with_score(list, score);
        lemma_with_score(front, score);
        assert forall|i: int| 0 <= i < picked.len() implies score_of(
            (#[trigger] picked[i]).is_temporary,
            picked[i].scope,
        ) == score && list.contains(picked[i]) by {
            if i < with_score(front, score).len() {
                let c = with_score(front, score)[i];
                assert(picked[i] == c);
                let k = choose|k: int| 0 <= k < front.len() && front[k] == c;
                assert(list[k] == c);
            } else {
                assert(list[list.len() - 1] == picked[i]);
            }
        }
        assert forall|i: int|
            0 <= i < list.len() && score_of((#[trigger] list[i]).is_temporary, list[i].scope)
                == score implies picked.contains(list[i]) by {
            if i < front.len() {
                assert(front[i] == list[i]);
                let k = choose|k: int|
                    0 <= k < with_score(front, score).len() && with_score(front, score)[k]
                        == list[i];
                assert(picked[k] == list[i]);
            } else {
                assert(picked[picked.len() - 1] == list[i]);
            }
        }
    }
}

/// Ranking orders the candidates: no candidate stands before one with a
/// higher score.
pub proof fn lemma_ranked_is_ordered(list: Seq<Candidate>, i: int, j: int)
    requires
        0 <= i <= j < ranked(list).len(),
    ensures
        score_of(ranked(list)[i].is_temporary, ranked(list)[i].scope) >= score_of(
            ranked(list)[j].is_temporary,
            ranked(list)[j].scope,
        ),
{
    lemma_with_score(list, 1100);
    lemma_with_score(list, 1050);
    lemma_with_score(list, 1010);
    lemma_with_score(list, 100);
    lemma_with_score(list, 50);
    lemma_with_score(list, 10);
}

/// Ranking keeps the candidates: each one of the list is in the ranking,
/// and nothing else is.
pub proof fn lemma_ranked_holds_the_same(list: Seq<Candidate>, candidate: Candidate)
    ensures
        ranked(list).contains(candidate) <==> list.contains(candidate),
{
    lemma_with_score(list, 1100);
    lemma_with_score(list, 1050);
    lemma_with_score(list, 1010);
    lemma_with_score(list, 100);
    lemma_with_score(list, 50);
    lemma_with_score(list, 10);
    let a = with_score(list, 1100);
    let b = with_score(list, 1050);
    let c = with_score(list, 1010);
    let d = with_score(list, 100);
    let e = with_score(list, 50);
    let f = with_score(list, 10);
    let r = ranked(list);
    if r.contains(candidate) {
        let k = choose|k: int| 0 <= k < r.len() && r[k] == candidate;
        if k < a.len() {
            assert(a[k] == candidate);
        } else if k < a.len() + b.len() {
            assert(b[k - a.len()] == candidate);
        } else if k < a.len() + b.len() + c.len() {
            assert(c[k - a.len() - b.len()] == candidate);
        } else if k < a.len() + b.len() + c.len() + d.len() {
            assert(d[k - a.len() - b.len() - c.len()] == candidate);
        } else if k < a.len() + b.len() + c.len() + d.len() + e.len() {
            assert(e[k - a.len() - b.len() - c.len() - d.len()] == candidate);
        } else {
            assert(f[k - a.len() - b.len() - c.len() - d.len() - e.len()] == candidate);
        }
    }
    if list.contains(candidate) {
        let k = choose|k: int| 0 <= k < list.len() && list[k] == candidate;
        let score = score_of(list[k].is_temporary, list[k].scope);
        if score == 1100 {
            let m = choose|m: int| 0 <= m < a.len() && a[m] == candidate;
            assert(r[m] == candidate);
        } else if score == 1050 {
            let m = choose|m: int| 0 <= m < b.len() && b[m] == candidate;
            assert(r[a.len() + m] == candidate);
        } else if score == 1010 {
            let m = choose|m: int| 0 <= m < c.len() && c[m] == candidate;
            assert(r[a.len() + b.len() + m] == candidate);
        } else if score == 100 {
            let m = choose|m: int| 0 <= m < d.len() && d[m] == candidate;
            assert(r[a.len() + b.len() + c.len() + m] == candidate);
        } else if score == 50 {
            let m = choose|m: int| 0 <= m < e.len() && e[m] == candidate;
            assert(r[a.len() + b.len() + c.len() + d.len() + m] == candidate);
        } else {
            let m = choose|m: int| 0 <= m < f.len() && f[m] == candidate;
            assert(r[a.len() + b.len() + c.len() + d.len() + e.len() + m] == candidate);
        }
    }
}

fn append_with_score(out: &mut Vec<Ipv6Info>, all: &Vec<Ipv6Info>, score: u32)
    ensures
        infos(final(out)@) == infos(old(out)@) + with_score(infos(all@), score),
{
    let ghost list = infos(all@);
    let mut i: usize = 0;
    assert(list.take(0) =~= Seq::<Candidate>::empty());
    assert(infos(out@) =~= infos(old(out)@) + with_score(list.take(0), score));
    while i < all.len()
        invariant
            i <= all@.len(),
            list == infos(all@),
            infos(out@) == infos(old(out)@) + with_score(list.take(i as int), score),
        decreases all@.len() - i,
    {
        let info = &all[i];
        proof {
            assert(list.take(i + 1).drop_last() =~= list.take(i as int));
            assert(list.take(i + 1).last() == info@);
        }
        if info.score() == score {
            let ghost before = infos(out@);
            out.push(
                Ipv6Info {
                    addr: info.addr,
                    interface: info.interface.clone(),
                    is_temporary: info.is_temporary,
                    scope: info.scope,
                },
            );
            assert(infos(out@) =~= before.push(info@));
        }
        i += 1;
    }
    assert(list.take(i as int) =~= list);
}

/// The addresses of this host that may be offered to a peer, the best
/// first. `interfaces` are the IPv6 addresses that the system reports and
/// `inet6_table` is the text of the kernel's table. Loopback and multicast
/// addresses are left out; it is an error if nothing else is there.
pub fn get_all_ipv6(interfaces: &Vec<InterfaceAddress>, inet6_table: &str) -> (out: Result<
    Vec<Ipv6Info>,
    ErrorKind,
>)
    ensures
        match out {
            Ok(list) => {
                &&& infos(list@) == ranked(candidates(interfaces@, encode_utf8(inet6_table@)))
                &&& list@.len() > 0
            },
            Err(e) => {
                &&& e == ErrorKind::NoSuitableAddress
                &&& candidates(interfaces@, encode_utf8(inet6_table@)).len() == 0
            },
        },
{
    let ghost table = encode_utf8(inet6_table@);
    let mut found: Vec<Ipv6Info> = Vec::new();
    let mut i: usize = 0;
    assert(interfaces@.take(0) =~= Seq::<InterfaceAddress>::empty());
    assert(infos(found@) =~= candidates(interfaces@.take(0), table));
    while i < interfaces.len()
        invariant
            i <= interfaces@.len(),
            table == encode_utf8(inet6_table@),
            infos(found@) == candidates(interfaces@.take(i as int), table),
        decreases interfaces@.len() - i,
    {
        let iface = &interfaces[i];
        proof {
            assert(interfaces@.take(i + 1).drop_last() =~= interfaces@.take(i as int));
            assert(interfaces@.take(i + 1).last() == *iface);
        }
        if !loopback(&iface.addr) && !multicast(&iface.addr) {
            let ghost before = infos(found@);
            let info = Ipv6Info {
                addr: iface.addr,
                interface: iface.name.clone(),
                is_temporary: is_temporary_address(&iface.addr, inet6_table),
                scope: classify_ipv6(&iface.addr),
            };
            assert(info@ == candidate_of(*iface, table));
            found.push(info);
            assert(infos(found@) =~= before.push(candidate_of(*iface, table)));
        }
        i += 1;
    }
    assert(interfaces@.take(i as int) =~= interfaces@);
    if found.len() == 0 {
        return Err(ErrorKind::NoSuitableAddress);
    }
    let mut list: Vec<Ipv6Info> = Vec::new();
    assert(infos(list@) =~= Seq::<Candidate>::empty());
    append_with_score(&mut list, &found, 1100);
    append_with_score(&mut list, &found, 1050);
    append_with_score(&mut list, &found, 1010);
    append_with_score(&mut list, &found, 100);
    append_with_score(&mut list, &found, 50);
    append_with_score(&mut list, &found, 10);
    proof {
        assert(infos(list@) =~= ranked(infos(found@)));
        lemma_ranked_keeps_all(infos(found@));
    }
    Ok(list)
}

/// The address of this host to offer to a peer: the best of those that
/// `get_all_ipv6` gives.
pub fn get_local_ipv6(interfaces: &Vec<InterfaceAddress>, inet6_table: &str) -> (out: Result<
    Ipv6Address,
    ErrorKind,
>)
    ensures
        match out {
            Ok(addr) => {
                &&& candidates(interfaces@, encode_utf8(inet6_table@)).len() > 0
                &&& addr@ == ranked(candidates(interfaces@, encode_utf8(inet6_table@)))[0].addr
            },
            Err(e) => {
                &&& e == ErrorKind::NoSuitableAddress
                &&& candidates(interfaces@, encode_utf8(inet6_table@)).len() == 0
            },
        },
{
    match get_all_ipv6(interfaces, inet6_table) {
        Ok(list) => {
            proof {
                lemma_ranked_keeps_all(candidates(interfaces@, encode_utf8(inet6_table@)));
                assert(infos(list@)[0] == list@[0]@);
            }
            Ok(list[0].addr)
        },
        Err(e) => Err(e),
    }
}

/// How to get at a peer's address.
#[derive(Clone, Debug)]
pub enum Resolution {
    /// The peer was named by its address.
    Direct(Ipv6Address),
    /// The registry is to be asked with this `/update`.
    ViaRegistry(UpdateRequest),
}

/// The nonce to show to the registry: the one in the configuration, or
/// none at all.
pub open spec fn nonce_of(config: Config) -> Seq<char> {
    match config.nonce {
        Some(nonce) => nonce@,
        None => Seq::empty(),
    }
}

/// Finds out how to reach `peer`. A literal address is used as it is. An
/// identifier needs the registry: the request refreshes this host's own
/// address, the best one it has, and asks for the peer's. Without an address
/// of its own the host cannot ask.
pub fn resolve_peer(
    peer: &str,
    config: &Config,
    interfaces: &Vec<InterfaceAddress>,
    inet6_table: &str,
) -> (out: Result<Resolution, ErrorKind>)
    ensures
        match literal_of(peer@) {
            Some(address) => out matches Ok(Resolution::Direct(a)) && a@ == address,
            None => match out {
                Ok(Resolution::ViaRegistry(req)) => {
                    &&& candidates(interfaces@, encode_utf8(inet6_table@)).len() > 0
                    &&& req.id@ == config.user_id@
                    &&& req.nonce@ == nonce_of(*config)
                    &&& req.peer_id@ == peer@
                    &&& req.address@ == ascii_chars(
                        ipv6_text(
                            ranked(candidates(interfaces@, encode_utf8(inet6_table@)))[0].addr,
                        ),
                    )
                },
                Ok(Resolution::Direct(_)) => false,
                Err(e) => {
                    &&& e == ErrorKind::NoSuitableAddress
                    &&& candidates(interfaces@, encode_utf8(inet6_table@)).len() == 0
                },
            },
        },
{
    match parse_peer(peer) {
        PeerAddress::Ipv6(address) => Ok(Resolution::Direct(address)),
        PeerAddress::Id(peer_id) => {
            let local = match get_local_ipv6(interfaces, inet6_table) {
                Ok(address) => address,
                Err(e) => {
                    return Err(e);
                },
            };
            let nonce = match &config.nonce {
                Some(nonce) => nonce.clone(),
                None => String::new(),
            };
            Ok(
                Resolution::ViaRegistry(
                    UpdateRequest {
                        id: config.user_id.clone(),
                        address: local.to_text(),
                        nonce,
                        peer_id,
                    },
                ),
            )
        },
    }
}

} // verus!
