//! IPv6 addresses as text: `x:x:x:x:x:x:x:x`, with one `::` for a run of
//! zero groups, and with a dotted quad for the last two groups.

use crate::address::Ipv6Address;
use crate::text::{all_ascii, ascii_chars, ascii_string};
use vstd::prelude::*;
use vstd::utf8::encode_utf8;

verus! {

/// The fields of `text` between the separators; one more than there are
/// separators.
pub open spec fn split(text: Seq<u8>, sep: u8) -> Seq<Seq<u8>>
    decreases text.len(),
{
    if text.len() == 0 {
        seq![Seq::<u8>::empty()]
    } else {
        let init = split(text.drop_last(), sep);
        if text.last() == sep {
            init.push(Seq::<u8>::empty())
        } else {
            init.update(init.len() - 1, init.last().push(text.last()))
        }
    }
}

/// The value of a hexadecimal digit, of either case.
pub open spec fn hex_digit(b: u8) -> Option<int> {
    if 0x30 <= b <= 0x39 {
        Some(b - 0x30)
    } else if 0x61 <= b <= 0x66 {
        Some(b - 0x61 + 10)
    } else if 0x41 <= b <= 0x46 {
        Some(b - 0x41 + 10)
    } else {
        None
    }
}

/// The number that hexadecimal digits spell.
pub open spec fn hex_value(digits: Seq<u8>) -> int
    decreases digits.len(),
{
    if digits.len() == 0 {
        0
    } else {
        hex_value(digits.drop_last()) * 16 + hex_digit(digits.last())->0
    }
}

/// One group: 1 to 4 hexadecimal digits.
pub open spec fn is_group(field: Seq<u8>) -> bool {
    &&& 1 <= field.len() <= 4
    &&& forall|i: int| 0 <= i < field.len() ==> hex_digit(#[trigger] field[i]) is Some
}

/// The number that decimal digits spell.
pub open spec fn dec_value(digits: Seq<u8>) -> int
    decreases digits.len(),
{
    if digits.len() == 0 {
        0
    } else {
        dec_value(digits.drop_last()) * 10 + (digits.last() - 0x30)
    }
}

/// One part of a dotted quad: a number up to 255 in 1 to 3 decimal digits,
/// without a leading zero.
pub open spec fn is_octet(field: Seq<u8>) -> bool {
    &&& 1 <= field.len() <= 3
    &&& forall|i: int| 0 <= i < field.len() ==> 0x30 <= #[trigger] field[i] <= 0x39
    &&& field.len() > 1 ==> field[0] != 0x30
    &&& dec_value(field) <= 255
}

/// The two groups that a dotted quad `a.b.c.d` stands for.
pub open spec fn quad_of(field: Seq<u8>) -> Option<Seq<u16>> {
    let parts = split(field, 0x2e);
    if parts.len() == 4 && is_octet(parts[0]) && is_octet(parts[1]) && is_octet(parts[2])
        && is_octet(parts[3]) {
        Some(
            seq![
                (dec_value(parts[0]) * 256 + dec_value(parts[1])) as u16,
                (dec_value(parts[2]) * 256 + dec_value(parts[3])) as u16,
            ],
        )
    } else {
        None
    }
}

/// The values of fields that are all groups.
pub open spec fn groups_values(fields: Seq<Seq<u8>>) -> Option<Seq<u16>> {
    if forall|i: int| 0 <= i < fields.len() ==> is_group(#[trigger] fields[i]) {
        Some(Seq::new(fields.len(), |i: int| hex_value(fields[i]) as u16))
    } else {
        None
    }
}

/// The values of fields that are groups, the last of which may be a dotted
/// quad instead, which counts for two.
pub open spec fn list_values(fields: Seq<Seq<u8>>) -> Option<Seq<u16>> {
    if fields.len() > 0 && quad_of(fields.last()) is Some {
        match groups_values(fields.drop_last()) {
            Some(values) => Some(values + quad_of(fields.last())->0),
            None => None,
        }
    } else {
        groups_values(fields)
    }
}

/// Index of the first empty field, or the number of fields if none is empty.
pub open spec fn first_empty(fields: Seq<Seq<u8>>) -> int
    decreases fields.len(),
{
    if fields.len() == 0 {
        0
    } else if fields[0].len() == 0 {
        0
    } else {
        1 + first_empty(fields.skip(1))
    }
}

/// The fields before and behind a `::`.
pub struct Gap {
    pub head: Seq<Seq<u8>>,
    pub tail: Seq<Seq<u8>>,
}

/// The fields before and behind the `::` of a text with these fields, where
/// its colons stand as they may: an empty field marks the `::`, and two of
/// them a `::` at the start or at the end.
pub open spec fn around_gap(f: Seq<Seq<u8>>) -> Option<Gap> {
    let n = f.len() as int;
    let k = first_empty(f);
    if k == 0 {
        if n >= 3 && f[1].len() == 0 {
            if n == 3 && f[2].len() == 0 {
                Some(Gap { head: Seq::empty(), tail: Seq::empty() })
            } else {
                Some(Gap { head: Seq::empty(), tail: f.skip(2) })
            }
        } else {
            None
        }
    } else if k == n - 1 {
        None
    } else if k == n - 2 && f[n - 1].len() == 0 {
        Some(Gap { head: f.take(k), tail: Seq::empty() })
    } else {
        Some(Gap { head: f.take(k), tail: f.skip(k + 1) })
    }
}

/// `count` zero groups.
pub open spec fn zeros(count: int) -> Seq<u16> {
    Seq::new(count as nat, |i: int| 0u16)
}

/// The address that a text stands for, if it stands for one. Without `::`
/// there are eight groups. With `::` there are seven at most, and zero
/// groups fill the gap. A dotted quad may stand for the last two groups.
pub open spec fn ipv6_from_text(text: Seq<u8>) -> Option<Seq<u16>> {
    let f = split(text, 0x3a);
    if first_empty(f) == f.len() {
        match list_values(f) {
            Some(values) => if values.len() == 8 {
                Some(values)
            } else {
                None
            },
            None => None,
        }
    } else {
        match around_gap(f) {
            Some(gap) => match (groups_values(gap.head), list_values(gap.tail)) {
                (Some(h), Some(t)) => if h.len() + t.len() <= 7 {
                    Some(h + zeros(8 - h.len() - t.len()) + t)
                } else {
                    None
                },
                _ => None,
            },
            None => None,
        }
    }
}

/// The views of the fields.
pub open spec fn views(fields: Seq<Vec<u8>>) -> Seq<Seq<u8>> {
    Seq::new(fields.len(), |i: int| fields[i]@)
}

/// Cuts `text` at every `sep`.
pub fn split_fields(text: &[u8], sep: u8) -> (fields: Vec<Vec<u8>>)
    ensures
        views(fields@) == split(text@, sep),
        fields@.len() >= 1,
{
    let mut fields: Vec<Vec<u8>> = Vec::new();
    let mut current: Vec<u8> = Vec::new();
    let mut i: usize = 0;
    assert(text@.take(0) =~= Seq::<u8>::empty());
    assert(views(fields@).push(current@) =~= split(text@.take(0), sep));
    while i < text.len()
        invariant
            i <= text@.len(),
            views(fields@).push(current@) == split(text@.take(i as int), sep),
        decreases text@.len() - i,
    {
        let b: u8 = text[i];
        let ghost before = views(fields@).push(current@);
        proof {
            assert(text@.take(i + 1).drop_last() =~= text@.take(i as int));
            assert(text@.take(i + 1).last() == b);
        }
        if b == sep {
            fields.push(current);
            current = Vec::new();
            assert(views(fields@).push(current@) =~= before.push(Seq::<u8>::empty()));
        } else {
            current.push(b);
            assert(views(fields@).push(current@) =~= before.update(
                before.len() - 1,
                before.last().push(b),
            ));
        }
        i += 1;
    }
    assert(text@.take(i as int) =~= text@);
    let ghost before = views(fields@).push(current@);
    fields.push(current);
    assert(views(fields@) =~= before);
    fields
}

fn hex_digit_of(b: u8) -> (digit: Option<u16>)
    ensures
        match digit {
            Some(d) => hex_digit(b) == Some(d as int) && d < 16,
            None => hex_digit(b) is None,
        },
{
    if b >= 0x30 && b <= 0x39 {
        Some((b - 0x30) as u16)
    } else if b >= 0x61 && b <= 0x66 {
        Some((b - 0x61 + 10) as u16)
    } else if b >= 0x41 && b <= 0x46 {
        Some((b - 0x41 + 10) as u16)
    } else {
        None
    }
}

/// Reads one group.
pub fn parse_group(field: &[u8]) -> (value: Option<u16>)
    ensures
        match value {
            Some(v) => is_group(field@) && v == hex_value(field@),
            None => !is_group(field@),
        },
{
    if field.len() < 1 || field.len() > 4 {
        return None;
    }
    let mut value: u16 = 0;
    let mut i: usize = 0;
    assert(field@.take(0) =~= Seq::<u8>::empty());
    while i < field.len()
        invariant
            i <= field@.len() <= 4,
            value == hex_value(field@.take(i as int)),
            i == 0 ==> value == 0,
            i == 1 ==> value < 0x10,
            i == 2 ==> value < 0x100,
            i == 3 ==> value < 0x1000,
            forall|k: int| 0 <= k < i ==> hex_digit(#[trigger] field@[k]) is Some,
        decreases field@.len() - i,
    {
        match hex_digit_of(field[i]) {
            Some(d) => {
                proof {
                    assert(field@.take(i + 1).drop_last() =~= field@.take(i as int));
                    assert(field@.take(i + 1).last() == field@[i as int]);
                }
                value = value * 16 + d;
            },
            None => {
                return None;
            },
        }
        i += 1;
    }
    assert(field@.take(i as int) =~= field@);
    Some(value)
}

/// Reads one part of a dotted quad.
pub fn parse_octet(field: &[u8]) -> (value: Option<u8>)
    ensures
        match value {
            Some(v) => is_octet(field@) && v == dec_value(field@),
            None => !is_octet(field@),
        },
{
    if field.len() < 1 || field.len() > 3 {
        return None;
    }
    if field.len() > 1 && field[0] == 0x30 {
        return None;
    }
    let mut value: u16 = 0;
    let mut i: usize = 0;
    assert(field@.take(0) =~= Seq::<u8>::empty());
    while i < field.len()
        invariant
            i <= field@.len() <= 3,
            value == dec_value(field@.take(i as int)),
            i == 0 ==> value == 0,
            i == 1 ==> value < 10,
            i == 2 ==> value < 100,
            i == 3 ==> value < 1000,
            forall|k: int| 0 <= k < i ==> 0x30 <= #[trigger] field@[k] <= 0x39,
        decreases field@.len() - i,
    {
        let b: u8 = field[i];
        if b < 0x30 || b > 0x39 {
            return None;
        }
        proof {
            assert(field@.take(i + 1).drop_last() =~= field@.take(i as int));
            assert(field@.take(i + 1).last() == b);
        }
        value = value * 10 + (b - 0x30) as u16;
        i += 1;
    }
    assert(field@.take(i as int) =~= field@);
    if value > 255 {
        return None;
    }
    Some(value as u8)
}

/// Reads a dotted quad as two groups.
pub fn parse_quad(field: &[u8]) -> (groups: Option<(u16, u16)>)
    ensures
        match groups {
            Some((high, low)) => quad_of(field@) == Some(seq![high, low]),
            None => quad_of(field@) is None,
        },
{
    let parts = split_fields(field, 0x2e);
    if parts.len() != 4 {
        return None;
    }
    assert(views(parts@)[0] == parts@[0]@);
    assert(views(parts@)[1] == parts@[1]@);
    assert(views(parts@)[2] == parts@[2]@);
    assert(views(parts@)[3] == parts@[3]@);
    let a: u8 = match parse_octet(parts[0].as_slice()) {
        Some(v) => v,
        None => {
            return None;
        },
    };
    let b: u8 = match parse_octet(parts[1].as_slice()) {
        Some(v) => v,
        None => {
            return None;
        },
    };
    let c: u8 = match parse_octet(parts[2].as_slice()) {
        Some(v) => v,
        None => {
            return None;
        },
    };
    let d: u8 = match parse_octet(parts[3].as_slice()) {
        Some(v) => v,
        None => {
            return None;
        },
    };
    let high: u16 = (a as u16) * 256 + (b as u16);
    let low: u16 = (c as u16) * 256 + (d as u16);
    assert(quad_of(field@)->0 =~= seq![high, low]);
    Some((high, low))
}

/// Reads the fields from `from` up to `to` as groups.
fn parse_groups(fields: &Vec<Vec<u8>>, from: usize, to: usize) -> (values: Option<Vec<u16>>)
    requires
        from <= to <= fields@.len(),
    ensures
        match values {
            Some(v) => groups_values(views(fields@).subrange(from as int, to as int)) == Some(v@),
            None => groups_values(views(fields@).subrange(from as int, to as int)) is None,
        },
{
    let ghost part = views(fields@).subrange(from as int, to as int);
    let mut values: Vec<u16> = Vec::new();
    let mut i: usize = from;
    while i < to
        invariant
            from <= i <= to <= fields@.len(),
            part == views(fields@).subrange(from as int, to as int),
            values@.len() == i - from,
            forall|k: int| 0 <= k < i - from ==> is_group(#[trigger] part[k]) && values@[k] == hex_value(part[k]),
        decreases to - i,
    {
        assert(part[i - from] == fields@[i as int]@);
        match parse_group(fields[i].as_slice()) {
            Some(v) => {
                values.push(v);
            },
            None => {
                return None;
            },
        }
        i += 1;
    }
    assert(groups_values(part)->0 =~= values@);
    Some(values)
}

/// Reads the fields from `from` up to `to` as groups with, maybe, a dotted
/// quad at the end.
fn parse_list(fields: &Vec<Vec<u8>>, from: usize, to: usize) -> (values: Option<Vec<u16>>)
    requires
        from <= to <= fields@.len(),
    ensures
        match values {
            Some(v) => list_values(views(fields@).subrange(from as int, to as int)) == Some(v@),
            None => list_values(views(fields@).subrange(from as int, to as int)) is None,
        },
{
    let ghost part = views(fields@).subrange(from as int, to as int);
    if from < to {
        assert(part.last() == fields@[to - 1]@);
        match parse_quad(fields[to - 1].as_slice()) {
            Some((high, low)) => {
                assert(part.drop_last() =~= views(fields@).subrange(from as int, to - 1));
                match parse_groups(fields, from, to - 1) {
                    Some(mut values) => {
                        let ghost front = values@;
                        values.push(high);
                        values.push(low);
                        assert(values@ =~= front + seq![high, low]);
                        return Some(values);
                    },
                    None => {
                        return None;
                    },
                }
            },
            None => {},
        }
    }
    parse_groups(fields, from, to)
}

/// Index of the first empty field.
fn find_empty(fields: &Vec<Vec<u8>>) -> (at: usize)
    ensures
        at == first_empty(views(fields@)),
        at <= fields@.len(),
{
    let ghost f = views(fields@);
    let mut i: usize = 0;
    assert(f.skip(0) =~= f);
    while i < fields.len()
        invariant
            i <= fields@.len(),
            f == views(fields@),
            first_empty(f) == i + first_empty(f.skip(i as int)),
        decreases fields@.len() - i,
    {
        assert(f.skip(i as int)[0] == fields@[i as int]@);
        if fields[i].len() == 0 {
            return i;
        }
        assert(f.skip(i as int).skip(1) =~= f.skip(i + 1));
        i += 1;
    }
    i
}

/// Reads an IPv6 address from its text.
pub fn parse_ipv6(text: &[u8]) -> (out: Option<Ipv6Address>)
    ensures
        match out {
            Some(address) => ipv6_from_text(text@) == Some(address@),
            None => ipv6_from_text(text@) is None,
        },
{
    let fields = split_fields(text, 0x3a);
    let ghost f = views(fields@);
    let n: usize = fields.len();
    let k: usize = find_empty(&fields);
    assert(f.subrange(0, n as int) =~= f);
    if k == n {
        return match parse_list(&fields, 0, n) {
            Some(values) => if values.len() == 8 {
                Some(address_of(&values))
            } else {
                None
            },
            None => None,
        };
    }
    let mut head_end: usize = k;
    let mut tail_start: usize = n;
    proof {
        assert(f[0] == fields@[0]@);
        if n >= 2 {
            assert(f[1] == fields@[1]@);
            assert(f[n - 1] == fields@[n - 1]@);
        }
        if n >= 3 {
            assert(f[2] == fields@[2]@);
        }
    }
    if k == 0 {
        if n >= 3 && fields[1].len() == 0 {
            if n == 3 && fields[2].len() == 0 {
                tail_start = n;
            } else {
                tail_start = 2;
            }
        } else {
            return None;
        }
    } else if k == n - 1 {
        return None;
    } else if k == n - 2 && fields[n - 1].len() == 0 {
        tail_start = n;
    } else {
        tail_start = k + 1;
    }
    proof {
        let gap = around_gap(f).unwrap();
        assert(f.subrange(0, head_end as int) =~= gap.head);
        assert(f.subrange(tail_start as int, n as int) =~= gap.tail);
    }
    let head = match parse_groups(&fields, 0, head_end) {
        Some(values) => values,
        None => {
            return None;
        },
    };
    let tail = match parse_list(&fields, tail_start, n) {
        Some(values) => values,
        None => {
            return None;
        },
    };
    if head.len() > 7 || tail.len() > 7 - head.len() {
        return None;
    }
    let mut segments: [u16; 8] = [0;8];
    let mut i: usize = 0;
    while i < head.len()
        invariant
            i <= head@.len() <= 7,
            forall|j: int| 0 <= j < i ==> segments[j] == head@[j],
            forall|j: int| i <= j < 8 ==> segments[j] == 0,
        decreases head@.len() - i,
    {
        segments[i] = head[i];
        i += 1;
    }
    let shift: usize = 8 - tail.len();
    let mut j: usize = 0;
    while j < tail.len()
        invariant
            j <= tail@.len(),
            shift == 8 - tail@.len(),
            head@.len() + tail@.len() <= 7,
            forall|m: int| 0 <= m < head@.len() ==> segments[m] == head@[m],
            forall|m: int| head@.len() <= m < shift ==> segments[m] == 0,
            forall|m: int| shift <= m < shift + j ==> segments[m] == tail@[m - shift],
        decreases tail@.len() - j,
    {
        segments[shift + j] = tail[j];
        j += 1;
    }
    let address = Ipv6Address { segments };
    assert(address@ =~= head@ + zeros(8 - head@.len() - tail@.len()) + tail@);
    Some(address)
}

fn address_of(values: &Vec<u16>) -> (address: Ipv6Address)
    requires
        values@.len() == 8,
    ensures
        address@ == values@,
{
    let address = Ipv6Address {
        segments: [
            values[0],
            values[1],
            values[2],
            values[3],
            values[4],
            values[5],
            values[6],
            values[7],
        ],
    };
    assert(address@ =~= values@);
    address
}

/// The lower-case hexadecimal digit for a value below 16.
pub open spec fn hex_char(digit: u16) -> u8 {
    if digit < 10 {
        (0x30 + digit) as u8
    } else {
        (0x61 + digit - 10) as u8
    }
}

/// A group as text: lower-case hexadecimal digits without leading zeros.
pub open spec fn hex_text(value: u16) -> Seq<u8> {
    if value < 0x10 {
        seq![hex_char(value)]
    } else if value < 0x100 {
        seq![hex_char(value / 16), hex_char(value % 16)]
    } else if value < 0x1000 {
        seq![hex_char(value / 256), hex_char(value / 16 % 16), hex_char(value % 16)]
    } else {
        seq![
            hex_char(value / 4096),
            hex_char(value / 256 % 16),
            hex_char(value / 16 % 16),
            hex_char(value % 16),
        ]
    }
}

/// A number up to 255 as text: decimal digits without leading zeros.
pub open spec fn dec_text(value: u16) -> Seq<u8> {
    if value < 10 {
        seq![(0x30 + value) as u8]
    } else if value < 100 {
        seq![(0x30 + value / 10) as u8, (0x30 + value % 10) as u8]
    } else {
        seq![(0x30 + value / 100) as u8, (0x30 + value / 10 % 10) as u8, (0x30 + value % 10) as u8]
    }
}

/// Groups as text, with a colon between each two.
pub open spec fn join_groups(groups: Seq<u16>) -> Seq<u8>
    decreases groups.len(),
{
    if groups.len() == 0 {
        Seq::empty()
    } else if groups.len() == 1 {
        hex_text(groups[0])
    } else {
        join_groups(groups.drop_last()) + seq![0x3au8] + hex_text(groups.last())
    }
}

/// Number of zero groups in a row from index `from` on.
pub open spec fn zero_run_from(groups: Seq<u16>, from: int) -> int
    decreases groups.len() - from,
{
    if 0 <= from < groups.len() && groups[from] == 0 {
        1 + zero_run_from(groups, from + 1)
    } else {
        0
    }
}

/// A run of zero groups.
pub struct ZeroRun {
    pub start: int,
    pub len: int,
}

/// The longest run of zero groups that starts before `upto`; the first one
/// of several that are equally long.
pub open spec fn longest_zero_run(groups: Seq<u16>, upto: int) -> ZeroRun
    decreases upto,
{
    if upto <= 0 {
        ZeroRun { start: 0, len: 0 }
    } else {
        let before = longest_zero_run(groups, upto - 1);
        if zero_run_from(groups, upto - 1) > before.len {
            ZeroRun { start: upto - 1, len: zero_run_from(groups, upto - 1) }
        } else {
            before
        }
    }
}

/// An address that holds an IPv4 address: `::ffff:a.b.c.d`.
pub open spec fn is_v4_mapped(groups: Seq<u16>) -> bool {
    groups[0] == 0 && groups[1] == 0 && groups[2] == 0 && groups[3] == 0 && groups[4] == 0
        && groups[5] == 0xffff
}

/// The four numbers of the last two groups, as a dotted quad.
pub open spec fn quad_text(high: u16, low: u16) -> Seq<u8> {
    dec_text(high / 256) + seq![0x2eu8] + dec_text(high % 256) + seq![0x2eu8] + dec_text(low / 256)
        + seq![0x2eu8] + dec_text(low % 256)
}

/// The text of an address. The longest run of two or more zero groups is
/// written as `::`; an address that holds an IPv4 address shows it as a
/// dotted quad.
pub open spec fn ipv6_text(groups: Seq<u16>) -> Seq<u8> {
    if is_v4_mapped(groups) {
        seq![0x3au8, 0x3au8, 0x66u8, 0x66u8, 0x66u8, 0x66u8, 0x3au8] + quad_text(
            groups[6],
            groups[7],
        )
    } else {
        let run = longest_zero_run(groups, 8);
        if run.len > 1 {
            join_groups(groups.take(run.start)) + seq![0x3au8, 0x3au8] + join_groups(
                groups.skip(run.start + run.len),
            )
        } else {
            join_groups(groups)
        }
    }
}

fn hex_char_of(digit: u16) -> (c: u8)
    requires
        digit < 16,
    ensures
        c == hex_char(digit),
        c < 128,
{
    if digit < 10 {
        0x30 + digit as u8
    } else {
        0x61 + (digit as u8 - 10)
    }
}

fn push_hex(out: &mut Vec<u8>, value: u16)
    ensures
        final(out)@ == old(out)@ + hex_text(value),
{
    if value >= 0x1000 {
        out.push(hex_char_of(value / 4096));
    }
    if value >= 0x100 {
        out.push(hex_char_of(value / 256 % 16));
    }
    if value >= 0x10 {
        out.push(hex_char_of(value / 16 % 16));
    }
    out.push(hex_char_of(value % 16));
    assert(out@ =~= old(out)@ + hex_text(value));
}

fn push_dec(out: &mut Vec<u8>, value: u16)
    requires
        value <= 255,
    ensures
        final(out)@ == old(out)@ + dec_text(value),
{
    if value >= 100 {
        out.push(0x30 + (value / 100) as u8);
    }
    if value >= 10 {
        out.push(0x30 + (value / 10 % 10) as u8);
    }
    out.push(0x30 + (value % 10) as u8);
    assert(out@ =~= old(out)@ + dec_text(value));
}

fn push_groups(out: &mut Vec<u8>, segments: &[u16; 8], from: usize, to: usize)
    requires
        from <= to <= 8,
    ensures
        final(out)@ == old(out)@ + join_groups(segments@.subrange(from as int, to as int)),
{
    let mut i: usize = from;
    assert(segments@.subrange(from as int, from as int) =~= Seq::<u16>::empty());
    assert(out@ =~= old(out)@ + join_groups(segments@.subrange(from as int, i as int)));
    while i < to
        invariant
            from <= i <= to <= 8,
            out@ == old(out)@ + join_groups(segments@.subrange(from as int, i as int)),
        decreases to - i,
    {
        let ghost done = segments@.subrange(from as int, i as int);
        let ghost next = segments@.subrange(from as int, i + 1);
        proof {
            assert(next.drop_last() =~= done);
            assert(next.last() == segments[i as int]);
        }
        let ghost before = out@;
        if i > from {
            out.push(0x3a);
        }
        push_hex(out, segments[i]);
        proof {
            if i > from {
                assert(out@ =~= old(out)@ + (join_groups(done) + seq![0x3au8] + hex_text(
                    segments[i as int],
                )));
            } else {
                assert(done.len() == 0);
                assert(out@ =~= old(out)@ + hex_text(segments[i as int]));
            }
        }
        i += 1;
    }
}

/// The longest run of zero groups: where it starts and how long it is.
fn find_zero_run(segments: &[u16; 8]) -> (run: (usize, usize))
    ensures
        run.0 == longest_zero_run(segments@, 8).start,
        run.1 == longest_zero_run(segments@, 8).len,
        run.0 + run.1 <= 8,
{
    let mut start: usize = 0;
    let mut len: usize = 0;
    let mut i: usize = 0;
    while i < 8
        invariant
            i <= 8,
            start == longest_zero_run(segments@, i as int).start,
            len == longest_zero_run(segments@, i as int).len,
            start + len <= 8,
        decreases 8 - i,
    {
        let mut j: usize = i;
        while j < 8 && segments[j] == 0
            invariant
                i <= j <= 8,
                zero_run_from(segments@, i as int) == (j - i) + zero_run_from(segments@, j as int),
            decreases 8 - j,
        {
            j += 1;
        }
        let here: usize = j - i;
        if here > len {
            start = i;
            len = here;
        }
        i += 1;
    }
    (start, len)
}

/// The text of `address`, as bytes.
pub fn format_ipv6(address: &Ipv6Address) -> (text: Vec<u8>)
    ensures
        text@ == ipv6_text(address@),
{
    let s = &address.segments;
    let mut out: Vec<u8> = Vec::new();
    if s[0] == 0 && s[1] == 0 && s[2] == 0 && s[3] == 0 && s[4] == 0 && s[5] == 0xffff {
        out.push(0x3a);
        out.push(0x3a);
        out.push(0x66);
        out.push(0x66);
        out.push(0x66);
        out.push(0x66);
        out.push(0x3a);
        let ghost prefix = out@;
        push_dec(&mut out, s[6] / 256);
        out.push(0x2e);
        push_dec(&mut out, s[6] % 256);
        out.push(0x2e);
        push_dec(&mut out, s[7] / 256);
        out.push(0x2e);
        push_dec(&mut out, s[7] % 256);
        assert(prefix =~= seq![0x3au8, 0x3au8, 0x66u8, 0x66u8, 0x66u8, 0x66u8, 0x3au8]);
        assert(out@ =~= prefix + quad_text(s[6], s[7]));
        return out;
    }
    let (start, len) = find_zero_run(s);
    if len > 1 {
        push_groups(&mut out, s, 0, start);
        out.push(0x3a);
        out.push(0x3a);
        push_groups(&mut out, s, start + len, 8);
        assert(s@.subrange(0, start as int) =~= s@.take(start as int));
        assert(s@.subrange(start + len, 8) =~= s@.skip(start + len));
        assert(out@ =~= join_groups(s@.take(start as int)) + seq![0x3au8, 0x3au8] + join_groups(
            s@.skip(start + len),
        ));
    } else {
        push_groups(&mut out, s, 0, 8);
        assert(s@.subrange(0, 8) =~= s@);
    }
    out
}

/// Groups are written in ASCII.
pub proof fn lemma_join_is_ascii(groups: Seq<u16>)
    ensures
        all_ascii(join_groups(groups)),
    decreases groups.len(),
{
    if groups.len() > 1 {
        lemma_join_is_ascii(groups.drop_last());
    }
}

/// The text of an address is ASCII.
pub proof fn lemma_text_is_ascii(groups: Seq<u16>)
    ensures
        all_ascii(ipv6_text(groups)),
{
    let run = longest_zero_run(groups, 8);
    lemma_join_is_ascii(groups);
    lemma_join_is_ascii(groups.take(run.start));
    lemma_join_is_ascii(groups.skip(run.start + run.len));
}

impl Ipv6Address {
    /// The text of the address.
    pub open spec fn spec_text(&self) -> Seq<char> {
        ascii_chars(ipv6_text(self@))
    }

    /// The address as text, in its shortest form.
    pub fn to_text(&self) -> (text: String)
        ensures
            text@ == self.spec_text(),
    {
        let bytes = format_ipv6(self);
        proof {
            lemma_text_is_ascii(self@);
        }
        ascii_string(bytes)
    }

    /// The address that `text` stands for, if it stands for one.
    pub fn parse(text: &str) -> (out: Option<Ipv6Address>)
        ensures
            match out {
                Some(address) => ipv6_from_text(encode_utf8(text@)) == Some(address@),
                None => ipv6_from_text(encode_utf8(text@)) is None,
            },
    {
        parse_ipv6(text.as_bytes())
    }
}

} // verus!
