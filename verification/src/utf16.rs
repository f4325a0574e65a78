//! UTF-16, as partition names and boot entries store it.

use crate::text::to_chars;
use vstd::prelude::*;
use vstd::utf8::{char_is_scalar, char_u32_cast, is_scalar};

verus! {

/// `char::from_u32` gives the character with that scalar value, and `None`
/// for a number that is not a Unicode scalar value.
pub assume_specification[ char::from_u32 ](i: u32) -> (r: Option<char>)
    ensures
        r is Some == is_scalar(i),
        r matches Some(c) ==> c as u32 == i,
;

/// The first half of a surrogate pair.
pub open spec fn is_high(unit: u16) -> bool {
    0xD800 <= unit <= 0xDBFF
}

/// The second half of a surrogate pair.
pub open spec fn is_low(unit: u16) -> bool {
    0xDC00 <= unit <= 0xDFFF
}

/// The scalar value a surrogate pair stands for.
pub open spec fn pair_value(high: u16, low: u16) -> u32 {
    (0x1_0000 + (high - 0xD800) * 0x400 + (low - 0xDC00)) as u32
}

/// The text `units` encode, with a replacement character for every
/// surrogate that has no partner.
pub open spec fn decode16(units: Seq<u16>) -> Seq<char>
    decreases units.len(),
{
    if units.len() == 0 {
        Seq::empty()
    } else if units.len() > 1 && is_high(units[0]) && is_low(units[1]) {
        seq![pair_value(units[0], units[1]) as char] + decode16(units.skip(2))
    } else if is_high(units[0]) || is_low(units[0]) {
        seq!['\u{FFFD}'] + decode16(units.skip(1))
    } else {
        seq![units[0] as char] + decode16(units.skip(1))
    }
}

/// The units before the first NUL.
pub open spec fn until_nul(units: Seq<u16>) -> Seq<u16>
    decreases units.len(),
{
    if units.len() == 0 || units[0] == 0 {
        Seq::empty()
    } else {
        seq![units[0]] + until_nul(units.skip(1))
    }
}

/// What [`until_nul`] gives, where the first NUL is known.
pub proof fn until_nul_at(units: Seq<u16>, end: int)
    requires
        0 <= end <= units.len(),
        forall|j: int| 0 <= j < end ==> units[j] != 0,
        end < units.len() ==> units[end] == 0,
    ensures
        until_nul(units) == units.take(end),
    decreases end,
{
    if end > 0 {
        assert forall|j: int| 0 <= j < end - 1 implies units.skip(1)[j] != 0 by {
            assert(units[j + 1] != 0);
        }
        until_nul_at(units.skip(1), end - 1);
        assert(units.take(end) =~= seq![units[0]] + units.skip(1).take(end - 1));
    } else {
        assert(units.take(end) =~= Seq::<u16>::empty());
    }
}

/// One character as one or two code units.
pub open spec fn encode_char(c: char) -> Seq<u16> {
    if (c as u32) < 0x1_0000 {
        seq![c as u16]
    } else {
        seq![
            (0xD800 + (c as u32 - 0x1_0000) / 0x400) as u16,
            (0xDC00 + (c as u32 - 0x1_0000) % 0x400) as u16,
        ]
    }
}

/// `text` in UTF-16.
pub open spec fn encode16(text: Seq<char>) -> Seq<u16>
    decreases text.len(),
{
    if text.len() == 0 {
        Seq::empty()
    } else {
        encode_char(text[0]) + encode16(text.skip(1))
    }
}

/// The code units of a character stand for that character.
proof fn encode_char_value(c: char)
    ensures
        (c as u32) < 0x1_0000 ==> !is_high(c as u16) && !is_low(c as u16) && (c as u16) as char == c,
        (c as u32) >= 0x1_0000 ==> {
            let u = encode_char(c);
            is_high(u[0]) && is_low(u[1]) && pair_value(u[0], u[1]) as char == c
        },
{
    char_is_scalar(c);
    char_u32_cast(c, c as u32);
}

/// A scalar value and the character with that value.
proof fn char_of_scalar(c: char, v: u32)
    requires
        c as u32 == v,
    ensures
        c == v as char,
{
    char_u32_cast(c, v);
}

/// Text survives being encoded and decoded again.
pub proof fn decode16_encode16(text: Seq<char>)
    ensures
        decode16(encode16(text)) == text,
    decreases text.len(),
{
    if text.len() > 0 {
        let c = text[0];
        let rest = encode16(text.skip(1));
        let all = encode_char(c) + rest;
        decode16_encode16(text.skip(1));
        encode_char_value(c);
        if (c as u32) < 0x1_0000 {
            assert(all.skip(1) =~= rest);
            assert(all[0] == c as u16);
        } else {
            assert(all.skip(2) =~= rest);
            assert(all[0] == (0xD800 + (c as u32 - 0x1_0000) / 0x400) as u16);
            assert(all[1] == (0xDC00 + (c as u32 - 0x1_0000) % 0x400) as u16);
        }
        assert(seq![c] + text.skip(1) =~= text);
    } else {
        assert(encode16(text) =~= Seq::<u16>::empty());
        assert(text =~= Seq::<char>::empty());
    }
}

/// Where [`until_nul`] stops.
pub proof fn until_nul_within(units: Seq<u16>)
    ensures
        until_nul(units).len() <= units.len(),
        until_nul(units) == units.take(until_nul(units).len() as int),
        forall|j: int| 0 <= j < until_nul(units).len() ==> until_nul(units)[j] != 0,
        until_nul(units).len() < units.len() ==> units[until_nul(units).len() as int] == 0,
    decreases units.len(),
{
    let text = until_nul(units);
    if units.len() == 0 || units[0] == 0 {
        assert(units.take(0) =~= Seq::<u16>::empty());
    } else {
        let rest = until_nul(units.skip(1));
        until_nul_within(units.skip(1));
        assert(units.take(text.len() as int) =~= seq![units[0]] + units.skip(1).take(
            rest.len() as int,
        ));
        assert forall|j: int| 0 <= j < text.len() implies text[j] != 0 by {
            if j > 0 {
                assert(text[j] == rest[j - 1]);
            }
        }
    }
}

/// Text without a NUL has no NUL when encoded.
pub proof fn encoded_text_has_no_nul(text: Seq<char>)
    requires
        !text.contains('\0'),
    ensures
        forall|j: int| 0 <= j < encode16(text).len() ==> encode16(text)[j] != 0,
    decreases text.len(),
{
    if text.len() > 0 {
        let c = text[0];
        let rest = text.skip(1);
        assert(text.contains(c));
        assert forall|x: char| rest.contains(x) implies text.contains(x) by {
            let i = choose|i: int| 0 <= i < rest.len() && rest[i] == x;
            assert(text[i + 1] == x);
        }
        encoded_text_has_no_nul(rest);
        encode_char_value(c);
        char_is_scalar(c);
        char_u32_cast(c, c as u32);
        let head = encode_char(c);
        assert forall|j: int| 0 <= j < encode16(text).len() implies encode16(text)[j] != 0 by {
            if j >= head.len() {
                assert(encode16(text)[j] == encode16(rest)[j - head.len()]);
            } else {
                assert(encode16(text)[j] == head[j]);
            }
        }
    }
}

/// Units without a NUL decode to text without one.
pub proof fn decoded_text_has_no_nul(units: Seq<u16>)
    requires
        forall|j: int| 0 <= j < units.len() ==> units[j] != 0,
    ensures
        !decode16(units).contains('\0'),
    decreases units.len(),
{
    if units.len() > 0 {
        decoded_text_has_no_nul(units.skip(1));
        if units.len() > 1 {
            decoded_text_has_no_nul(units.skip(2));
        }
    }
}

/// Decode UTF-16, replacing unpaired surrogates.
pub(crate) fn decode16_text(units: &[u16]) -> (r: String)
    ensures
        r@ == decode16(units@),
{
    let mut out = String::new();
    let mut i: usize = 0;
    assert(units@.skip(0) =~= units@);
    assert(out@ + decode16(units@) =~= decode16(units@));
    while i < units.len()
        invariant
            i <= units.len(),
            out@ + decode16(units@.skip(i as int)) == decode16(units@),
        decreases units.len() - i,
    {
        let ghost rest = units@.skip(i as int);
        let ghost before = out@;
        let first: u16 = units[i];
        let paired = if 0xD800 <= first && first <= 0xDBFF && i + 1 < units.len() {
            0xDC00 <= units[i + 1] && units[i + 1] <= 0xDFFF
        } else {
            false
        };
        if paired {
            let value: u32 = 0x1_0000 + (first as u32 - 0xD800) * 0x400 + (units[i + 1] as u32
                - 0xDC00);
            if let Some(c) = char::from_u32(value) {
                proof {
                    char_of_scalar(c, value);
                }
                out.push(c);
            }
            assert(rest.skip(2) =~= units@.skip(i + 2));
            assert(before + decode16(rest) =~= out@ + decode16(rest.skip(2)));
            i += 2;
        } else if 0xD800 <= first && first <= 0xDFFF {
            out.push('\u{FFFD}');
            assert(rest.skip(1) =~= units@.skip(i + 1));
            assert(before + decode16(rest) =~= out@ + decode16(rest.skip(1)));
            i += 1;
        } else {
            if let Some(c) = char::from_u32(first as u32) {
                proof {
                    char_of_scalar(c, first as u32);
                }
                out.push(c);
            }
            assert(rest.skip(1) =~= units@.skip(i + 1));
            assert(before + decode16(rest) =~= out@ + decode16(rest.skip(1)));
            i += 1;
        }
    }
    assert(units@.skip(i as int).len() == 0);
    assert(out@ =~= out@ + decode16(units@.skip(i as int)));
    out
}

/// `text` in UTF-16.
pub(crate) fn encode16_units(text: &str) -> (r: Vec<u16>)
    ensures
        r@ == encode16(text@),
{
    let chars = to_chars(text);
    let mut out: Vec<u16> = Vec::new();
    let mut i: usize = 0;
    assert(chars@.skip(0) =~= chars@);
    assert(out@ + encode16(chars@) =~= encode16(chars@));
    while i < chars.len()
        invariant
            i <= chars.len(),
            chars@ == text@,
            out@ + encode16(chars@.skip(i as int)) == encode16(text@),
        decreases chars.len() - i,
    {
        let ghost rest = chars@.skip(i as int);
        let ghost before = out@;
        let c: char = chars[i];
        proof {
            encode_char_value(c);
            char_is_scalar(c);
        }
        let v: u32 = c as u32;
        if v < 0x1_0000 {
            out.push(v as u16);
            assert(out@ =~= before + encode_char(c));
        } else {
            out.push((0xD800 + (v - 0x1_0000) / 0x400) as u16);
            out.push((0xDC00 + (v - 0x1_0000) % 0x400) as u16);
            assert(out@ =~= before + encode_char(c));
        }
        assert(rest.skip(1) =~= chars@.skip(i + 1));
        assert(before + (encode_char(c) + encode16(rest.skip(1))) =~= out@ + encode16(
            rest.skip(1),
        ));
        i += 1;
    }
    assert(out@ + encode16(chars@.skip(i as int)) =~= out@);
    out
}

} // verus!
