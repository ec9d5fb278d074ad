//! The text that is written for an address is read back as that address.

use crate::ipv6_text::{around_gap, dec_text, dec_value, first_empty, groups_values, hex_char};
use crate::ipv6_text::{hex_digit, hex_text, hex_value, ipv6_from_text, ipv6_text, is_group};
use crate::ipv6_text::{is_octet, is_v4_mapped, join_groups, list_values, longest_zero_run};
use crate::ipv6_text::{quad_of, quad_text, split, zero_run_from, zeros};
use crate::address::Ipv6Address;
use crate::ipv6_text::lemma_text_is_ascii;
use crate::text::lemma_ascii_is_utf8;
use vstd::prelude::*;
use vstd::utf8::encode_utf8;

verus! {

/// No byte of the text is `sep`.
pub open spec fn free_of(text: Seq<u8>, sep: u8) -> bool {
    forall|i: int| 0 <= i < text.len() ==> #[trigger] text[i] != sep
}

/// The texts of groups, one for each.
pub open spec fn texts_of(groups: Seq<u16>) -> Seq<Seq<u8>> {
    Seq::new(groups.len(), |i: int| hex_text(groups[i]))
}

/// A text always has a field.
pub proof fn lemma_split_len(text: Seq<u8>, sep: u8)
    ensures
        split(text, sep).len() >= 1,
    decreases text.len(),
{
    if text.len() > 0 {
        lemma_split_len(text.drop_last(), sep);
    }
}

/// A text without separator is one field.
pub proof fn lemma_split_free(text: Seq<u8>, sep: u8)
    requires
        free_of(text, sep),
    ensures
        split(text, sep) == seq![text],
    decreases text.len(),
{
    if text.len() > 0 {
        let front = text.drop_last();
        assert forall|i: int| 0 <= i < front.len() implies #[trigger] front[i] != sep by {
            assert(front[i] == text[i]);
        }
        lemma_split_free(front, sep);
        assert(text[text.len() - 1] != sep);
        assert(front.push(text.last()) =~= text);
        let init = split(front, sep);
        assert(init.update(init.len() - 1, init.last().push(text.last())) =~= seq![text]);
    } else {
        assert(text =~= Seq::<u8>::empty());
    }
}

/// A separator and a text without separator add one field.
pub proof fn lemma_split_append(x: Seq<u8>, y: Seq<u8>, sep: u8)
    requires
        free_of(y, sep),
    ensures
        split(x + seq![sep] + y, sep) == split(x, sep).push(y),
    decreases y.len(),
{
    let whole = x + seq![sep] + y;
    lemma_split_len(x, sep);
    if y.len() == 0 {
        assert(whole.drop_last() =~= x);
        assert(whole.last() == sep);
        assert(y =~= Seq::<u8>::empty());
    } else {
        let front = y.drop_last();
        lemma_split_append(x, front, sep);
        assert(whole.drop_last() =~= x + seq![sep] + front);
        assert(whole.last() == y.last());
        assert(front.push(y.last()) =~= y);
        assert(split(whole, sep) =~= split(x, sep).push(y));
    }
}

/// One more digit: sixteen times the number so far, and the digit.
proof fn lemma_hex_value_push(digits: Seq<u8>, digit: u8)
    ensures
        hex_value(digits.push(digit)) == hex_value(digits) * 16 + hex_digit(digit)->0,
{
    assert(digits.push(digit).drop_last() =~= digits);
}

/// One more digit: ten times the number so far, and the digit.
proof fn lemma_dec_value_push(digits: Seq<u8>, digit: u8)
    ensures
        dec_value(digits.push(digit)) == dec_value(digits) * 10 + (digit - 0x30),
{
    assert(digits.push(digit).drop_last() =~= digits);
}

/// The digit for a value below 16 stands for that value.
proof fn lemma_hex_char(digit: u16)
    requires
        digit < 16,
    ensures
        hex_digit(hex_char(digit)) == Some(digit as int),
        hex_char(digit) != 0x3a,
        hex_char(digit) != 0x2e,
{
}

/// The text of a group is a group, and it is read as the group's value.
pub proof fn lemma_hex_text(value: u16)
    ensures
        is_group(hex_text(value)),
        hex_value(hex_text(value)) == value,
        free_of(hex_text(value), 0x3a),
        free_of(hex_text(value), 0x2e),
{
    let d0: u16 = value / 4096;
    let d1: u16 = value / 256 % 16;
    let d2: u16 = value / 16 % 16;
    let d3: u16 = value % 16;
    assert(value == (value / 4096) * 4096 + (value / 256 % 16) * 256 + (value / 16 % 16) * 16
        + value % 16) by (bit_vector);
    assert(value / 4096 < 16 && value / 256 % 16 < 16 && value / 16 % 16 < 16 && value % 16 < 16)
        by (bit_vector);
    assert(value < 0x1000 ==> value / 4096 == 0) by (bit_vector);
    assert(value < 0x100 ==> value / 256 % 16 == 0) by (bit_vector);
    assert(value < 0x10 ==> value / 16 % 16 == 0) by (bit_vector);
    lemma_hex_char(d0);
    lemma_hex_char(d1);
    lemma_hex_char(d2);
    lemma_hex_char(d3);
    let e = Seq::<u8>::empty();
    lemma_hex_value_push(e, hex_char(d3));
    if value < 0x10 {
        assert(hex_text(value) =~= e.push(hex_char(d3)));
    } else if value < 0x100 {
        lemma_hex_value_push(e, hex_char(d2));
        lemma_hex_value_push(e.push(hex_char(d2)), hex_char(d3));
        assert(hex_text(value) =~= e.push(hex_char(d2)).push(hex_char(d3)));
    } else if value < 0x1000 {
        lemma_hex_value_push(e, hex_char(d1));
        lemma_hex_value_push(e.push(hex_char(d1)), hex_char(d2));
        lemma_hex_value_push(e.push(hex_char(d1)).push(hex_char(d2)), hex_char(d3));
        assert(hex_text(value) =~= e.push(hex_char(d1)).push(hex_char(d2)).push(hex_char(d3)));
    } else {
        lemma_hex_value_push(e, hex_char(d0));
        lemma_hex_value_push(e.push(hex_char(d0)), hex_char(d1));
        lemma_hex_value_push(e.push(hex_char(d0)).push(hex_char(d1)), hex_char(d2));
        lemma_hex_value_push(
            e.push(hex_char(d0)).push(hex_char(d1)).push(hex_char(d2)),
            hex_char(d3),
        );
        assert(hex_text(value) =~= e.push(hex_char(d0)).push(hex_char(d1)).push(
            hex_char(d2),
        ).push(hex_char(d3)));
    }
}

/// The text of a number up to 255 is an octet, and it is read as the number.
pub proof fn lemma_dec_text(value: u16)
    requires
        value <= 255,
    ensures
        is_octet(dec_text(value)),
        dec_value(dec_text(value)) == value,
        free_of(dec_text(value), 0x2e),
        free_of(dec_text(value), 0x3a),
{
    let c0: u8 = (0x30 + value / 100) as u8;
    let c1: u8 = (0x30 + value / 10 % 10) as u8;
    let c2: u8 = (0x30 + value % 10) as u8;
    assert(value <= 255 ==> value == (value / 100) * 100 + (value / 10 % 10) * 10 + value % 10
        && value / 100 <= 2 && value / 10 % 10 < 10 && value % 10 < 10) by (bit_vector);
    assert(value < 100 ==> value / 100 == 0 && value / 10 == value / 10 % 10) by (bit_vector);
    assert(value < 10 ==> value / 10 == 0) by (bit_vector);
    let e = Seq::<u8>::empty();
    lemma_dec_value_push(e, c2);
    if value < 10 {
        assert(dec_text(value) =~= e.push(c2));
    } else if value < 100 {
        let t1: u8 = (0x30 + value / 10) as u8;
        lemma_dec_value_push(e, t1);
        lemma_dec_value_push(e.push(t1), c2);
        assert(dec_text(value) =~= e.push(t1).push(c2));
    } else {
        lemma_dec_value_push(e, c0);
        lemma_dec_value_push(e.push(c0), c1);
        lemma_dec_value_push(e.push(c0).push(c1), c2);
        assert(dec_text(value) =~= e.push(c0).push(c1).push(c2));
    }
}

/// Groups behind a colon are read as their fields, one for each group.
pub proof fn lemma_split_join_behind(x: Seq<u8>, groups: Seq<u16>)
    requires
        groups.len() >= 1,
    ensures
        split(x + seq![0x3au8] + join_groups(groups), 0x3a) == split(x, 0x3a) + texts_of(groups),
    decreases groups.len(),
{
    let last = hex_text(groups.last());
    lemma_hex_text(groups.last());
    if groups.len() == 1 {
        lemma_split_append(x, last, 0x3a);
        assert(split(x, 0x3a).push(last) =~= split(x, 0x3a) + texts_of(groups));
    } else {
        let front = groups.drop_last();
        lemma_split_join_behind(x, front);
        let before = x + seq![0x3au8] + join_groups(front);
        lemma_split_append(before, last, 0x3a);
        assert(x + seq![0x3au8] + join_groups(groups) =~= before + seq![0x3au8] + last);
        assert((split(x, 0x3a) + texts_of(front)).push(last) =~= split(x, 0x3a) + texts_of(
            groups,
        ));
    }
}

/// Groups are read as their fields, one for each group.
pub proof fn lemma_split_join(groups: Seq<u16>)
    requires
        groups.len() >= 1,
    ensures
        split(join_groups(groups), 0x3a) == texts_of(groups),
    decreases groups.len(),
{
    let last = hex_text(groups.last());
    lemma_hex_text(groups.last());
    if groups.len() == 1 {
        lemma_split_free(last, 0x3a);
        assert(seq![last] =~= texts_of(groups));
    } else {
        let front = groups.drop_last();
        lemma_split_join(front);
        lemma_split_append(join_groups(front), last, 0x3a);
        assert(texts_of(front).push(last) =~= texts_of(groups));
    }
}

/// The fields of groups are read as the groups, and none of them is empty.
pub proof fn lemma_texts_read(groups: Seq<u16>)
    ensures
        groups_values(texts_of(groups)) == Some(groups),
        list_values(texts_of(groups)) == Some(groups),
        forall|i: int| 0 <= i < groups.len() ==> (#[trigger] texts_of(groups)[i]).len() > 0,
{
    let fields = texts_of(groups);
    assert forall|i: int| 0 <= i < fields.len() implies is_group(#[trigger] fields[i])
        && hex_value(fields[i]) == groups[i] by {
        lemma_hex_text(groups[i]);
    }
    assert(groups_values(fields)->0 =~= groups);
    if groups.len() > 0 {
        lemma_hex_text(groups.last());
        lemma_split_free(fields.last(), 0x2e);
    }
}

/// Behind fields of which none is empty, the first empty field is the
/// first empty one of the rest.
pub proof fn lemma_first_empty_behind(front: Seq<Seq<u8>>, rest: Seq<Seq<u8>>)
    requires
        forall|i: int| 0 <= i < front.len() ==> (#[trigger] front[i]).len() > 0,
    ensures
        first_empty(front + rest) == front.len() + first_empty(rest),
    decreases front.len(),
{
    if front.len() == 0 {
        assert(front + rest =~= rest);
    } else {
        let all = front + rest;
        assert(all[0] == front[0]);
        assert(all.skip(1) =~= front.skip(1) + rest);
        assert forall|i: int| 0 <= i < front.skip(1).len() implies (#[trigger] front.skip(
            1,
        )[i]).len() > 0 by {
            assert(front.skip(1)[i] == front[i + 1]);
        }
        lemma_first_empty_behind(front.skip(1), rest);
    }
}

/// A run of zero groups is made of zero groups and ends with the groups.
pub proof fn lemma_zero_run(groups: Seq<u16>, from: int)
    requires
        0 <= from <= groups.len(),
    ensures
        0 <= zero_run_from(groups, from) <= groups.len() - from,
        forall|k: int| from <= k < from + zero_run_from(groups, from) ==> #[trigger] groups[k] == 0,
    decreases groups.len() - from,
{
    if from < groups.len() && groups[from] == 0 {
        lemma_zero_run(groups, from + 1);
    }
}

/// The longest run of zero groups lies within the groups and is made of
/// zero groups.
pub proof fn lemma_longest_zero_run(groups: Seq<u16>, upto: int)
    requires
        0 <= upto <= groups.len(),
    ensures
        0 <= longest_zero_run(groups, upto).start,
        0 <= longest_zero_run(groups, upto).len,
        longest_zero_run(groups, upto).start + longest_zero_run(groups, upto).len <= groups.len(),
        forall|k: int|
            longest_zero_run(groups, upto).start <= k < longest_zero_run(groups, upto).start
                + longest_zero_run(groups, upto).len ==> #[trigger] groups[k] == 0,
    decreases upto,
{
    if upto > 0 {
        lemma_longest_zero_run(groups, upto - 1);
        lemma_zero_run(groups, upto - 1);
    }
}

/// A dotted quad is read as the two groups it was written for.
pub proof fn lemma_quad_text(high: u16, low: u16)
    ensures
        quad_of(quad_text(high, low)) == Some(seq![high, low]),
        free_of(quad_text(high, low), 0x3a),
{
    let a = dec_text(high / 256);
    let b = dec_text(high % 256);
    let c = dec_text(low / 256);
    let d = dec_text(low % 256);
    lemma_dec_text(high / 256);
    lemma_dec_text(high % 256);
    lemma_dec_text(low / 256);
    lemma_dec_text(low % 256);
    lemma_split_free(a, 0x2e);
    lemma_split_append(a, b, 0x2e);
    lemma_split_append(a + seq![0x2eu8] + b, c, 0x2e);
    lemma_split_append(a + seq![0x2eu8] + b + seq![0x2eu8] + c, d, 0x2e);
    let parts = split(quad_text(high, low), 0x2e);
    assert(parts =~= seq![a, b, c, d]);
    assert(quad_of(quad_text(high, low))->0 =~= seq![high, low]);
}

/// The fields of `::`, with nothing or with groups behind it.
proof fn lemma_split_leading_gap(tail: Seq<u16>)
    ensures
        split(seq![0x3au8, 0x3au8] + join_groups(tail), 0x3a) == seq![
            Seq::<u8>::empty(),
            Seq::<u8>::empty(),
        ] + if tail.len() == 0 {
            seq![Seq::<u8>::empty()]
        } else {
            texts_of(tail)
        },
{
    let e = Seq::<u8>::empty();
    let colon = seq![0x3au8];
    lemma_split_free(e, 0x3a);
    lemma_split_append(e, e, 0x3a);
    assert(e + colon + e =~= colon);
    assert(seq![e].push(e) =~= seq![e, e]);
    if tail.len() == 0 {
        lemma_split_append(colon, e, 0x3a);
        assert(colon + colon + e =~= seq![0x3au8, 0x3au8] + join_groups(tail));
        assert(seq![e, e].push(e) =~= seq![e, e] + seq![e]);
    } else {
        lemma_split_join_behind(colon, tail);
        assert(colon + colon + join_groups(tail) =~= seq![0x3au8, 0x3au8] + join_groups(tail));
    }
}

/// The fields of groups, `::`, and nothing or groups behind it.
proof fn lemma_split_inner_gap(head: Seq<u16>, tail: Seq<u16>)
    requires
        head.len() >= 1,
    ensures
        split(join_groups(head) + seq![0x3au8, 0x3au8] + join_groups(tail), 0x3a) == texts_of(
            head,
        ).push(Seq::<u8>::empty()) + if tail.len() == 0 {
            seq![Seq::<u8>::empty()]
        } else {
            texts_of(tail)
        },
{
    let e = Seq::<u8>::empty();
    let colon = seq![0x3au8];
    let front = join_groups(head);
    lemma_split_join(head);
    lemma_split_append(front, e, 0x3a);
    let x = front + colon + e;
    assert(x =~= front + colon);
    if tail.len() == 0 {
        lemma_split_append(x, e, 0x3a);
        assert(x + colon + e =~= front + seq![0x3au8, 0x3au8] + join_groups(tail));
        assert(texts_of(head).push(e).push(e) =~= texts_of(head).push(e) + seq![e]);
    } else {
        lemma_split_join_behind(x, tail);
        assert(x + colon + join_groups(tail) =~= front + seq![0x3au8, 0x3au8] + join_groups(
            tail,
        ));
    }
}

/// Groups, a gap that stands for `gap` zero groups, and groups again are
/// read as what they were written for.
proof fn lemma_read_with_gap(head: Seq<u16>, tail: Seq<u16>)
    requires
        head.len() + tail.len() <= 7,
    ensures
        ipv6_from_text(join_groups(head) + seq![0x3au8, 0x3au8] + join_groups(tail)) == Some(
            head + zeros(8 - head.len() - tail.len()) + tail,
        ),
{
    let e = Seq::<u8>::empty();
    let text = join_groups(head) + seq![0x3au8, 0x3au8] + join_groups(tail);
    let f = split(text, 0x3a);
    let rest = if tail.len() == 0 {
        seq![e]
    } else {
        texts_of(tail)
    };
    lemma_texts_read(head);
    lemma_texts_read(tail);
    assert(groups_values(Seq::<Seq<u8>>::empty()) == Some(Seq::<u16>::empty())) by {
        assert(groups_values(Seq::<Seq<u8>>::empty())->0 =~= Seq::<u16>::empty());
    }
    if head.len() == 0 {
        assert(join_groups(head) =~= e);
        assert(text =~= seq![0x3au8, 0x3au8] + join_groups(tail));
        lemma_split_leading_gap(tail);
        assert(f == seq![e, e] + rest);
        assert(f[0] == e);
        assert(f[1] == e);
        assert(f[2] == rest[0]);
        assert(first_empty(f) == 0);
        let gap = around_gap(f)->0;
        assert(gap.head =~= Seq::<Seq<u8>>::empty());
        if tail.len() == 0 {
            assert(gap.tail =~= Seq::<Seq<u8>>::empty());
            assert(texts_of(tail) =~= Seq::<Seq<u8>>::empty());
        } else {
            assert(gap.tail =~= texts_of(tail));
        }
        assert(head =~= Seq::<u16>::empty());
    } else {
        lemma_split_inner_gap(head, tail);
        let front = texts_of(head);
        assert(f == front.push(e) + rest);
        assert(f =~= front + (seq![e] + rest));
        lemma_first_empty_behind(front, seq![e] + rest);
        assert((seq![e] + rest)[0] == e);
        assert(first_empty(seq![e] + rest) == 0);
        let k = head.len() as int;
        assert(first_empty(f) == k);
        let gap = around_gap(f)->0;
        assert(f[f.len() - 1] == rest[rest.len() - 1]);
        assert(gap.head =~= front);
        if tail.len() == 0 {
            assert(gap.tail =~= Seq::<Seq<u8>>::empty());
            assert(texts_of(tail) =~= Seq::<Seq<u8>>::empty());
        } else {
            assert(gap.tail =~= texts_of(tail));
        }
    }
}

/// Eight groups without a gap are read as what they were written for.
proof fn lemma_read_without_gap(groups: Seq<u16>)
    requires
        groups.len() == 8,
    ensures
        ipv6_from_text(join_groups(groups)) == Some(groups),
{
    let f = split(join_groups(groups), 0x3a);
    lemma_split_join(groups);
    lemma_texts_read(groups);
    lemma_first_empty_behind(f, Seq::<Seq<u8>>::empty());
    assert(f + Seq::<Seq<u8>>::empty() =~= f);
}

/// An address that holds an IPv4 address is read as what it was written
/// for.
proof fn lemma_read_v4_mapped(groups: Seq<u16>)
    requires
        groups.len() == 8,
        is_v4_mapped(groups),
    ensures
        ipv6_from_text(ipv6_text(groups)) == Some(groups),
{
    let e = Seq::<u8>::empty();
    let colon = seq![0x3au8];
    let ffff = hex_text(0xffff);
    let quad = quad_text(groups[6], groups[7]);
    let text = ipv6_text(groups);
    lemma_quad_text(groups[6], groups[7]);
    lemma_hex_text(0xffff);
    lemma_split_leading_gap(seq![0xffffu16]);
    assert(join_groups(seq![0xffffu16]) == ffff);
    let x = seq![0x3au8, 0x3au8] + ffff;
    lemma_split_append(x, quad, 0x3a);
    assert(ffff =~= seq![0x66u8, 0x66u8, 0x66u8, 0x66u8]);
    assert(text =~= x + colon + quad);
    let f = split(text, 0x3a);
    assert(texts_of(seq![0xffffu16]) =~= seq![ffff]);
    assert(f =~= seq![e, e, ffff, quad]);
    assert(first_empty(f) == 0);
    let gap = around_gap(f)->0;
    assert(gap.head =~= Seq::<Seq<u8>>::empty());
    assert(gap.tail =~= seq![ffff, quad]);
    assert(gap.tail.drop_last() =~= seq![ffff]);
    assert(groups_values(Seq::<Seq<u8>>::empty())->0 =~= Seq::<u16>::empty());
    assert(groups_values(seq![ffff])->0 =~= seq![0xffffu16]);
    assert(list_values(gap.tail) == Some(seq![0xffffu16] + seq![groups[6], groups[7]]));
    assert(Seq::<u16>::empty() + zeros(5) + (seq![0xffffu16] + seq![groups[6], groups[7]])
        =~= groups);
}

/// The text that is written for an address is read back as that address.
pub proof fn lemma_text_round_trip(groups: Seq<u16>)
    requires
        groups.len() == 8,
    ensures
        ipv6_from_text(ipv6_text(groups)) == Some(groups),
{
    if is_v4_mapped(groups) {
        lemma_read_v4_mapped(groups);
    } else {
        let run = longest_zero_run(groups, 8);
        lemma_longest_zero_run(groups, 8);
        if run.len > 1 {
            let head = groups.take(run.start);
            let tail = groups.skip(run.start + run.len);
            lemma_read_with_gap(head, tail);
            assert(head + zeros(8 - head.len() - tail.len()) + tail =~= groups);
        } else {
            lemma_read_without_gap(groups);
        }
    }
}

/// An address that is written as text and read again is the same address.
pub proof fn lemma_address_round_trip(address: Ipv6Address)
    ensures
        ipv6_from_text(encode_utf8(address.spec_text())) == Some(address@),
{
    lemma_text_is_ascii(address@);
    lemma_ascii_is_utf8(ipv6_text(address@));
    lemma_text_round_trip(address@);
}

} // verus!
