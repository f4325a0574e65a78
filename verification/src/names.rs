//! The `prefixNNNsuffix` naming scheme shared by everything this tool
//! saves: `gpt.NNN`, `boot.NNN`, `diag-NNN.txt`.
//!
//! One implementation rather than three copies, because the rules are the
//! point and they must not drift apart: names are matched
//! case-insensitively (FAT may hand back `GPT.001`), and the next number
//! counts up from the highest present and never fills a gap. Reusing the
//! number of a file someone deleted would make the ordering lie about which
//! is newest.

use crate::text::{
    content_of, dec, dec_text, digit, encode_utf8_concat, pad_left, pad_left_text, strings_of,
};
use vstd::prelude::*;
use vstd::utf8::{encode_utf8, is_ascii_chars, is_ascii_chars_encode_utf8};

verus! {

/// An ASCII letter in lower case, any other byte as it is.
pub open spec fn lower(b: u8) -> u8 {
    if 65 <= b <= 90 {
        (b + 32) as u8
    } else {
        b
    }
}

/// The same bytes but for the case of ASCII letters.
pub open spec fn same_fold(a: Seq<u8>, b: Seq<u8>) -> bool {
    &&& a.len() == b.len()
    &&& forall|i: int| 0 <= i < a.len() ==> #[trigger] lower(a[i]) == lower(b[i])
}

/// An ASCII digit.
pub open spec fn is_digit(b: u8) -> bool {
    48 <= b <= 57
}

/// The number in a name of the scheme.
pub open spec fn sequence_in(name: Seq<u8>, prefix: Seq<u8>, suffix: Seq<u8>) -> Option<u32> {
    let p = prefix.len() as int;
    if name.len() == p + 3 + suffix.len() && same_fold(name.take(p), prefix) && same_fold(
        name.skip(p + 3),
        suffix,
    ) && is_digit(name[p]) && is_digit(name[p + 1]) && is_digit(name[p + 2]) {
        Some(((name[p] - 48) * 100 + (name[p + 1] - 48) * 10 + (name[p + 2] - 48)) as u32)
    } else {
        None
    }
}

/// The number in a name of the scheme.
pub open spec fn sequence_of_text(name: Seq<char>, prefix: Seq<char>, suffix: Seq<char>) -> Option<
    u32,
> {
    sequence_in(encode_utf8(name), encode_utf8(prefix), encode_utf8(suffix))
}

fn lower_byte(b: u8) -> (r: u8)
    ensures
        r == lower(b),
{
    if 65 <= b && b <= 90 {
        b + 32
    } else {
        b
    }
}

/// Whether two byte strings are the same but for the case of ASCII letters.
pub(crate) fn folds(a: &[u8], b: &[u8]) -> (r: bool)
    ensures
        r == same_fold(a@, b@),
{
    if a.len() != b.len() {
        return false;
    }
    let mut i: usize = 0;
    while i < a.len()
        invariant
            i <= a.len(),
            a@.len() == b@.len(),
            forall|j: int| 0 <= j < i ==> #[trigger] lower(a@[j]) == lower(b@[j]),
        decreases a.len() - i,
    {
        if lower_byte(a[i]) != lower_byte(b[i]) {
            assert(lower(a@[i as int]) != lower(b@[i as int]));
            return false;
        }
        i += 1;
    }
    true
}

/// The number in `prefixNNNsuffix`, or `None` if `name` is not one.
///
/// Compared as bytes throughout. Every name this matches is ASCII, but
/// the names it is *asked* about are whatever a FAT directory hands back,
/// so it has to be able to say no to anything.
pub fn sequence_of(name: &str, prefix: &str, suffix: &str) -> (r: Option<u32>)
    ensures
        r == sequence_of_text(name@, prefix@, suffix@),
{
    let n = name.as_bytes();
    let p = prefix.as_bytes();
    let s = suffix.as_bytes();
    let at: usize = p.len();
    if n.len() < 3 || n.len() - 3 < at || n.len() - 3 - at != s.len() {
        return None;
    }
    let head = &n[0..at];
    let tail = &n[at + 3..n.len()];
    assert(head@ =~= n@.take(at as int));
    assert(tail@ =~= n@.skip(at + 3));
    if !folds(head, p) || !folds(tail, s) {
        return None;
    }
    let (a, b, c): (u8, u8, u8) = (n[at], n[at + 1], n[at + 2]);
    if a < 48 || a > 57 || b < 48 || b > 57 || c < 48 || c > 57 {
        return None;
    }
    Some((a - 48) as u32 * 100 + (b - 48) as u32 * 10 + (c - 48) as u32)
}

/// The highest number among the first `n` names, zero if there is none.
pub open spec fn highest(
    existing: Seq<Seq<char>>,
    n: nat,
    prefix: Seq<char>,
    suffix: Seq<char>,
) -> u32
    decreases n,
{
    if n == 0 {
        0
    } else {
        let rest = highest(existing, (n - 1) as nat, prefix, suffix);
        match sequence_of_text(existing[n - 1], prefix, suffix) {
            Some(k) if k > rest => k,
            _ => rest,
        }
    }
}

/// The name with number `n`.
pub open spec fn made_name(prefix: Seq<char>, n: u32, suffix: Seq<char>) -> Seq<char> {
    prefix + pad_left(dec(n as nat), 3, '0') + suffix
}

/// The name after the highest there is, while there is one.
pub open spec fn name_after(
    existing: Seq<Seq<char>>,
    prefix: Seq<char>,
    suffix: Seq<char>,
    max: u32,
) -> Option<Seq<char>> {
    let top = highest(existing, existing.len(), prefix, suffix);
    if top < max {
        Some(made_name(prefix, (top + 1) as u32, suffix))
    } else {
        None
    }
}

/// The next name to write, given every name already in use, or `None` once
/// the space is exhausted: better to say so than to overwrite somebody's
/// oldest file.
pub fn next_name(existing: &[String], prefix: &str, suffix: &str, max: u32) -> (r: Option<String>)
    ensures
        content_of(r) == name_after(strings_of(existing@), prefix@, suffix@, max),
{
    let mut top: u32 = 0;
    let mut i: usize = 0;
    while i < existing.len()
        invariant
            i <= existing.len(),
            top == highest(strings_of(existing@), i as nat, prefix@, suffix@),
        decreases existing.len() - i,
    {
        if let Some(k) = sequence_of(existing[i].as_str(), prefix, suffix) {
            if k > top {
                top = k;
            }
        }
        i += 1;
    }
    if top >= max {
        return None;
    }
    let mut s = prefix.to_owned();
    s.push_str(pad_left_text(dec_text((top + 1) as u64).as_str(), 3, '0').as_str());
    s.push_str(suffix);
    Some(s)
}

/// The number chosen next is above every number in use, so a gap is never
/// filled and no number is ever used twice.
pub proof fn next_number_is_new(
    existing: Seq<Seq<char>>,
    n: nat,
    prefix: Seq<char>,
    suffix: Seq<char>,
    i: int,
)
    requires
        0 <= i < n <= existing.len(),
    ensures
        sequence_of_text(existing[i], prefix, suffix) matches Some(k) ==> k < highest(
            existing,
            n,
            prefix,
            suffix,
        ) + 1,
    decreases n,
{
    if i < n - 1 {
        next_number_is_new(existing, (n - 1) as nat, prefix, suffix, i);
    }
}

/// Three digits are what a number below a thousand is padded to.
proof fn three_digits(n: u32)
    requires
        n < 1000,
    ensures
        pad_left(dec(n as nat), 3, '0') == seq![
            digit((n / 100) as nat, false),
            digit((n / 10 % 10) as nat, false),
            digit((n % 10) as nat, false),
        ],
{
    let d = dec(n as nat);
    reveal_with_fuel(dec, 3);
    assert(pad_left(d, 3, '0') =~= seq![
        digit((n / 100) as nat, false),
        digit((n / 10 % 10) as nat, false),
        digit((n % 10) as nat, false),
    ]);
}

/// A name made by the scheme is one of the scheme, with the number it was
/// made from.
pub proof fn made_name_reads_back(prefix: Seq<char>, n: u32, suffix: Seq<char>)
    requires
        n < 1000,
    ensures
        sequence_of_text(made_name(prefix, n, suffix), prefix, suffix) == Some(n),
{
    let digits = pad_left(dec(n as nat), 3, '0');
    three_digits(n);
    assert(is_ascii_chars(digits));
    is_ascii_chars_encode_utf8(digits);
    encode_utf8_concat(prefix, digits);
    encode_utf8_concat(prefix + digits, suffix);
    let p = encode_utf8(prefix);
    let d = encode_utf8(digits);
    let s = encode_utf8(suffix);
    let all = p + d + s;
    assert(all == encode_utf8(made_name(prefix, n, suffix)));
    assert(all.take(p.len() as int) =~= p);
    assert(all.skip(p.len() as int + 3) =~= s);
    assert(d[0] == digits[0] as u8);
    assert(d[1] == digits[1] as u8);
    assert(d[2] == digits[2] as u8);
    assert(all[p.len() as int] == d[0]);
    assert(all[p.len() as int + 1] == d[1]);
    assert(all[p.len() as int + 2] == d[2]);
}


/// The case a name is written in does not matter to the number it holds.
pub proof fn case_does_not_matter(a: Seq<u8>, b: Seq<u8>, prefix: Seq<u8>, suffix: Seq<u8>)
    requires
        same_fold(a, b),
    ensures
        sequence_in(a, prefix, suffix) == sequence_in(b, prefix, suffix),
        forall|letter: u8|
            65 <= letter <= 90 ==> #[trigger] lower(letter) == lower((letter + 32) as u8),
{
    let p = prefix.len() as int;
    if a.len() == p + 3 + suffix.len() {
        assert(lower(a[p]) == lower(b[p]));
        assert(lower(a[p + 1]) == lower(b[p + 1]));
        assert(lower(a[p + 2]) == lower(b[p + 2]));
        let x = a.take(p);
        let y = b.take(p);
        assert forall|i: int| 0 <= i < p implies lower(x[i]) == lower(y[i]) by {
            assert(lower(a[i]) == lower(b[i]));
        }
        assert(same_fold(x, prefix) == same_fold(y, prefix)) by {
            if same_fold(x, prefix) {
                assert forall|i: int| 0 <= i < p implies lower(y[i]) == lower(prefix[i]) by {
                    assert(lower(x[i]) == lower(prefix[i]));
                }
            }
            if same_fold(y, prefix) {
                assert forall|i: int| 0 <= i < p implies lower(x[i]) == lower(prefix[i]) by {
                    assert(lower(y[i]) == lower(prefix[i]));
                }
            }
        }
        let x = a.skip(p + 3);
        let y = b.skip(p + 3);
        assert forall|i: int| 0 <= i < suffix.len() implies lower(x[i]) == lower(y[i]) by {
            assert(lower(a[p + 3 + i]) == lower(b[p + 3 + i]));
        }
        assert(same_fold(x, suffix) == same_fold(y, suffix)) by {
            if same_fold(x, suffix) {
                assert forall|i: int| 0 <= i < suffix.len() implies lower(y[i]) == lower(
                    suffix[i],
                ) by {
                    assert(lower(x[i]) == lower(suffix[i]));
                }
            }
            if same_fold(y, suffix) {
                assert forall|i: int| 0 <= i < suffix.len() implies lower(x[i]) == lower(
                    suffix[i],
                ) by {
                    assert(lower(y[i]) == lower(suffix[i]));
                }
            }
        }
    }
}

/// The number a name holds is its three digits, the most significant first.
pub proof fn the_digits_are_the_number(name: Seq<u8>, prefix: Seq<u8>, suffix: Seq<u8>, n: u32)
    requires
        sequence_in(name, prefix, suffix) == Some(n),
    ensures
        n < 1000,
        name.len() == prefix.len() + 3 + suffix.len(),
        name[prefix.len() as int] == 48 + n / 100,
        name[prefix.len() + 1int] == 48 + n / 10 % 10,
        name[prefix.len() + 2int] == 48 + n % 10,
{
}

/// The next name follows the highest number there is: a gap is not filled,
/// and the first is number one.
pub proof fn the_next_name_follows_the_highest(
    existing: Seq<Seq<char>>,
    prefix: Seq<char>,
    suffix: Seq<char>,
    max: u32,
    top: u32,
)
    requires
        forall|i: int|
            0 <= i < existing.len() ==> (sequence_of_text(
                #[trigger] existing[i],
                prefix,
                suffix,
            ) matches Some(k) ==> k <= top),
        top == 0 || exists|i: int|
            0 <= i < existing.len() && sequence_of_text(#[trigger] existing[i], prefix, suffix)
                == Some(top),
    ensures
        top < max ==> name_after(existing, prefix, suffix, max) == Some(
            prefix + pad_left(dec((top + 1) as nat), 3, '0') + suffix,
        ),
        top >= max ==> name_after(existing, prefix, suffix, max) is None,
{
    let n = existing.len();
    let found = highest(existing, n, prefix, suffix);
    highest_is_held(existing, n, prefix, suffix);
    if found > 0 {
        let i = choose|i: int|
            0 <= i < n && sequence_of_text(#[trigger] existing[i], prefix, suffix) == Some(found);
        assert(sequence_of_text(existing[i], prefix, suffix) == Some(found));
        assert(found <= top);
    }
    if top > 0 {
        let i = choose|i: int|
            0 <= i < n && sequence_of_text(#[trigger] existing[i], prefix, suffix) == Some(top);
        next_number_is_new(existing, n, prefix, suffix, i);
    }
}

proof fn highest_is_held(existing: Seq<Seq<char>>, n: nat, prefix: Seq<char>, suffix: Seq<char>)
    requires
        n <= existing.len(),
    ensures
        highest(existing, n, prefix, suffix) == 0 || exists|i: int|
            0 <= i < n && sequence_of_text(#[trigger] existing[i], prefix, suffix) == Some(
                highest(existing, n, prefix, suffix),
            ),
    decreases n,
{
    if n > 0 {
        highest_is_held(existing, (n - 1) as nat, prefix, suffix);
        let before = highest(existing, (n - 1) as nat, prefix, suffix);
        let now = highest(existing, n, prefix, suffix);
        if now != before {
            assert(sequence_of_text(existing[n - 1], prefix, suffix) == Some(now));
        } else if before != 0 {
            let i = choose|i: int|
                0 <= i < n - 1 && sequence_of_text(#[trigger] existing[i], prefix, suffix) == Some(
                    before,
                );
            assert(sequence_of_text(existing[i], prefix, suffix) == Some(now));
        }
    }
}

} // verus!
