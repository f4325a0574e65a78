//! Building the text of a report, one verified piece at a time.
//!
//! Every screen this library writes is a sequence of characters with an
//! exact specification. The functions here are the vocabulary those
//! specifications are written in: decimal and hexadecimal numbers, padding
//! to a column, joining with a separator.

use vstd::prelude::*;
use vstd::std_specs::iter::IteratorSpec;
use vstd::string::*;
use vstd::utf8::*;

verus! {

// ------------------------------------------------------------- std strings

/// `String::push` appends one character and leaves the rest alone.
pub assume_specification[ String::push ](s: &mut String, c: char)
    ensures
        final(s)@ == old(s)@.push(c),
;

/// `String::push_str` appends the characters of `other` and leaves the rest
/// alone.
pub assume_specification[ String::push_str ](s: &mut String, other: &str)
    ensures
        final(s)@ == old(s)@ + other@,
;

/// `String::from_utf8` succeeds exactly on valid UTF-8, and gives back the
/// characters those bytes encode.
#[verifier::external_body]
pub(crate) fn utf8_text(bytes: &[u8]) -> (r: Option<String>)
    ensures
        r is Some == valid_utf8(bytes@),
        r matches Some(s) ==> s@ == decode_utf8(bytes@),
{
    String::from_utf8(bytes.to_vec()).ok()
}

// ------------------------------------------------------------------ numbers

/// The character for one digit, upper or lower case above nine.
pub open spec fn digit(d: nat, upper: bool) -> char {
    if d < 10 {
        (48 + d) as char
    } else if upper {
        (55 + d) as char
    } else {
        (87 + d) as char
    }
}

/// `n` in decimal, without leading zeros.
pub open spec fn dec(n: nat) -> Seq<char>
    decreases n,
{
    if n < 10 {
        seq![digit(n, false)]
    } else {
        dec(n / 10).push(digit(n % 10, false))
    }
}

/// The last `width` hexadecimal digits of `n`.
pub open spec fn hex(n: nat, width: nat, upper: bool) -> Seq<char>
    decreases width,
{
    if width == 0 {
        Seq::empty()
    } else {
        hex(n / 16, (width - 1) as nat, upper).push(digit(n % 16, upper))
    }
}

/// `n` in lower-case hexadecimal, without leading zeros.
pub open spec fn hex_min(n: nat) -> Seq<char>
    decreases n,
{
    if n < 16 {
        seq![digit(n, false)]
    } else {
        hex_min(n / 16).push(digit(n % 16, false))
    }
}

pub(crate) fn digit_char(d: u8, upper: bool) -> (r: char)
    requires
        d < 16,
    ensures
        r == digit(d as nat, upper),
{
    if d < 10 {
        (48 + d) as char
    } else if upper {
        (55 + d) as char
    } else {
        (87 + d) as char
    }
}

pub(crate) fn dec_text(n: u64) -> (r: String)
    ensures
        r@ == dec(n as nat),
    decreases n,
{
    if n < 10 {
        let mut s = String::new();
        s.push(digit_char(n as u8, false));
        s
    } else {
        let mut s = dec_text(n / 10);
        s.push(digit_char((n % 10) as u8, false));
        s
    }
}

fn dec_wide(n: u128) -> (r: String)
    ensures
        r@ == dec(n as nat),
    decreases n,
{
    if n < 10 {
        let mut s = String::new();
        s.push(digit_char(n as u8, false));
        s
    } else {
        let mut s = dec_wide(n / 10);
        s.push(digit_char((n % 10) as u8, false));
        s
    }
}

/// The number after `n`, in decimal.
pub(crate) fn succ_text(n: u64) -> (r: String)
    ensures
        r@ == dec((n + 1) as nat),
{
    dec_wide(n as u128 + 1)
}

pub(crate) fn hex_text(n: u64, width: usize, upper: bool) -> (r: String)
    ensures
        r@ == hex(n as nat, width as nat, upper),
    decreases width,
{
    if width == 0 {
        String::new()
    } else {
        let mut s = hex_text(n / 16, width - 1, upper);
        s.push(digit_char((n % 16) as u8, upper));
        s
    }
}

pub(crate) fn hex_min_text(n: u64) -> (r: String)
    ensures
        r@ == hex_min(n as nat),
    decreases n,
{
    if n < 16 {
        let mut s = String::new();
        s.push(digit_char(n as u8, false));
        s
    } else {
        let mut s = hex_min_text(n / 16);
        s.push(digit_char((n % 16) as u8, false));
        s
    }
}

/// The product, or the largest `u64` if it does not fit.
pub open spec fn capped_product(a: int, b: int) -> u64 {
    if a * b <= u64::MAX {
        (a * b) as u64
    } else {
        u64::MAX
    }
}

pub(crate) fn capped_mul(a: u64, b: u64) -> (r: u64)
    ensures
        r == capped_product(a as int, b as int),
{
    match a.checked_mul(b) {
        Some(n) => n,
        None => u64::MAX,
    }
}

/// `(a + 1) * b`, or the largest `u64` if that does not fit.
pub(crate) fn capped_succ_mul(a: u64, b: u64) -> (r: u64)
    ensures
        r == capped_product(a + 1, b as int),
{
    if a == u64::MAX {
        assert((a + 1) * b >= 0x1_0000_0000_0000_0000 || b == 0) by (nonlinear_arith)
            requires
                a == u64::MAX,
                b >= 0,
        ;
        assert((a + 1) * 0 == 0);
        if b == 0 {
            0
        } else {
            u64::MAX
        }
    } else {
        capped_mul(a + 1, b)
    }
}

// ------------------------------------------------------------------ padding

/// `n` copies of `c`.
pub open spec fn filled(c: char, n: nat) -> Seq<char> {
    Seq::new(n, |i: int| c)
}

/// `s` moved to the right of a column of `width` characters by `c`. Text
/// that is already as wide is left alone.
pub open spec fn pad_left(s: Seq<char>, width: nat, c: char) -> Seq<char> {
    if s.len() >= width {
        s
    } else {
        filled(c, (width - s.len()) as nat) + s
    }
}

/// `s` followed by spaces up to `width` characters. Text that is already as
/// wide is left alone.
pub open spec fn pad_right(s: Seq<char>, width: nat) -> Seq<char> {
    if s.len() >= width {
        s
    } else {
        s + filled(' ', (width - s.len()) as nat)
    }
}

pub(crate) fn filled_text(c: char, n: usize) -> (r: String)
    ensures
        r@ == filled(c, n as nat),
{
    let mut s = String::new();
    let mut i: usize = 0;
    while i < n
        invariant
            i <= n,
            s@ == filled(c, i as nat),
        decreases n - i,
    {
        s.push(c);
        i += 1;
    }
    s
}

pub(crate) fn pad_left_text(s: &str, width: usize, c: char) -> (r: String)
    ensures
        r@ == pad_left(s@, width as nat, c),
{
    let n: usize = s.unicode_len();
    if n >= width {
        s.to_owned()
    } else {
        let mut out = filled_text(c, width - n);
        out.push_str(s);
        out
    }
}

pub(crate) fn pad_right_text(s: &str, width: usize) -> (r: String)
    ensures
        r@ == pad_right(s@, width as nat),
{
    let n: usize = s.unicode_len();
    if n >= width {
        s.to_owned()
    } else {
        let mut out = s.to_owned();
        out.push_str(filled_text(' ', width - n).as_str());
        out
    }
}

/// The text `parts` make with `sep` between them.
pub open spec fn joined(parts: Seq<Seq<char>>, sep: Seq<char>) -> Seq<char>
    decreases parts.len(),
{
    if parts.len() == 0 {
        Seq::empty()
    } else if parts.len() == 1 {
        parts[0]
    } else {
        joined(parts.drop_last(), sep) + sep + parts.last()
    }
}

/// Borrowed texts as values.
pub open spec fn texts_of(v: Seq<&str>) -> Seq<Seq<char>> {
    Seq::new(v.len(), |i: int| v[i]@)
}

/// Owned texts as values.
pub open spec fn strings_of(v: Seq<String>) -> Seq<Seq<char>> {
    Seq::new(v.len(), |i: int| v[i]@)
}

pub(crate) fn joined_text(parts: &[&str], sep: &str) -> (r: String)
    ensures
        r@ == joined(texts_of(parts@), sep@),
{
    let mut out = String::new();
    let mut i: usize = 0;
    while i < parts.len()
        invariant
            i <= parts.len(),
            out@ == joined(texts_of(parts@.take(i as int)), sep@),
        decreases parts.len() - i,
    {
        let ghost before = texts_of(parts@.take(i as int));
        let ghost after = texts_of(parts@.take(i + 1));
        assert(after.drop_last() =~= before);
        assert(after.last() == parts@[i as int]@);
        if i > 0 {
            out.push_str(sep);
        }
        out.push_str(parts[i]);
        i += 1;
        assert(out@ =~= joined(after, sep@));
    }
    assert(parts@.take(i as int) =~= parts@);
    out
}

/// `word` alone if it applies, nothing otherwise.
pub open spec fn named(applies: bool, word: Seq<char>) -> Seq<Seq<char>> {
    if applies {
        seq![word]
    } else {
        Seq::empty()
    }
}

/// Append `word` if it applies.
pub(crate) fn add_name(names: &mut Vec<&'static str>, applies: bool, word: &'static str)
    ensures
        texts_of(final(names)@) == texts_of(old(names)@) + named(applies, word@),
{
    if applies {
        names.push(word);
    }
    assert(texts_of(names@) =~= texts_of(old(names)@) + named(applies, word@));
}

/// An optional text as a value.
pub open spec fn content_of(value: Option<String>) -> Option<Seq<char>> {
    match value {
        Some(v) => Some(v@),
        None => None,
    }
}

// --------------------------------------------------------------- comparing

/// Whether two texts are the same.
pub(crate) fn same_text(a: &str, b: &str) -> (r: bool)
    ensures
        r == (a@ == b@),
{
    a.to_owned() == b.to_owned()
}

// --------------------------------------------------------------- characters

/// The characters of `s`, one by one.
pub(crate) fn to_chars(s: &str) -> (r: Vec<char>)
    ensures
        r@ == s@,
{
    let mut out: Vec<char> = Vec::new();
    let n: usize = s.unicode_len();
    let mut rest = s.chars();
    let ghost all = s@;
    let mut i: usize = 0;
    assert(all.skip(0) =~= all);
    while i < n
        invariant
            i <= n,
            n == all.len(),
            out@ == all.take(i as int),
            rest.remaining() == all.skip(i as int),
            rest.obeys_prophetic_iter_laws(),
        decreases n - i,
    {
        match rest.next() {
            Some(c) => {
                out.push(c);
                assert(all.take(i + 1) =~= all.take(i as int).push(all[i as int]));
                assert(all.skip(i as int).drop_first() =~= all.skip(i + 1));
            },
            None => {
                assert(all.skip(i as int).len() > 0);
            },
        }
        i += 1;
    }
    assert(all.take(n as int) =~= all);
    out
}

/// The text made of `chars`.
pub(crate) fn from_chars(chars: &[char]) -> (r: String)
    ensures
        r@ == chars@,
{
    let mut out = String::new();
    let mut i: usize = 0;
    while i < chars.len()
        invariant
            i <= chars.len(),
            out@ == chars@.take(i as int),
        decreases chars.len() - i,
    {
        out.push(chars[i]);
        i += 1;
        assert(chars@.take(i as int) =~= chars@.take(i - 1).push(chars@[i - 1]));
    }
    assert(chars@.take(i as int) =~= chars@);
    out
}

/// Whether `c` occurs in `s`.
pub(crate) fn has_char(s: &str, c: char) -> (r: bool)
    ensures
        r == s@.contains(c),
{
    let chars = to_chars(s);
    let mut i: usize = 0;
    while i < chars.len()
        invariant
            i <= chars.len(),
            chars@ == s@,
            forall|j: int| 0 <= j < i ==> chars@[j] != c,
        decreases chars.len() - i,
    {
        if chars[i] == c {
            assert(s@[i as int] == c);
            return true;
        }
        i += 1;
    }
    false
}

/// Texts are encoded one after the other.
pub proof fn encode_utf8_concat(a: Seq<char>, b: Seq<char>)
    ensures
        encode_utf8(a + b) == encode_utf8(a) + encode_utf8(b),
    decreases a.len(),
{
    if a.len() == 0 {
        assert(a + b =~= b);
        assert(encode_utf8(a) + encode_utf8(b) =~= encode_utf8(b));
    } else {
        encode_utf8_concat(a.drop_first(), b);
        assert((a + b).drop_first() =~= a.drop_first() + b);
        assert(encode_utf8(a + b) =~= encode_utf8(a) + encode_utf8(b));
    }
}

// ---------------------------------------------------------------- trimming

/// A character Unicode counts as white space.
pub open spec fn is_space(c: char) -> bool {
    let v = c as u32;
    ||| 0x09 <= v <= 0x0D
    ||| v == 0x20
    ||| v == 0x85
    ||| v == 0xA0
    ||| v == 0x1680
    ||| 0x2000 <= v <= 0x200A
    ||| v == 0x2028
    ||| v == 0x2029
    ||| v == 0x202F
    ||| v == 0x205F
    ||| v == 0x3000
}

/// `s` without the white space at its end.
pub open spec fn trimmed_end(s: Seq<char>) -> Seq<char>
    decreases s.len(),
{
    if s.len() > 0 && is_space(s.last()) {
        trimmed_end(s.drop_last())
    } else {
        s
    }
}

/// `s` without the white space at its start.
pub open spec fn trimmed_start(s: Seq<char>) -> Seq<char>
    decreases s.len(),
{
    if s.len() > 0 && is_space(s[0]) {
        trimmed_start(s.skip(1))
    } else {
        s
    }
}

fn is_white(c: char) -> (r: bool)
    ensures
        r == is_space(c),
{
    let v: u32 = c as u32;
    (0x09 <= v && v <= 0x0D) || v == 0x20 || v == 0x85 || v == 0xA0 || v == 0x1680 || (0x2000 <= v
        && v <= 0x200A) || v == 0x2028 || v == 0x2029 || v == 0x202F || v == 0x205F || v == 0x3000
}

/// `s` without the white space at its end.
pub(crate) fn trim_end(s: &str) -> (r: String)
    ensures
        r@ == trimmed_end(s@),
{
    let chars = to_chars(s);
    let mut n: usize = chars.len();
    assert(chars@.take(n as int) =~= chars@);
    while n > 0 && is_white(chars[n - 1])
        invariant
            n <= chars.len(),
            chars@ == s@,
            trimmed_end(chars@.take(n as int)) == trimmed_end(s@),
        decreases n,
    {
        n -= 1;
        assert(chars@.take(n + 1).drop_last() =~= chars@.take(n as int));
    }
    assert(chars@.subrange(0, n as int) =~= chars@.take(n as int));
    from_chars(&chars.as_slice()[0..n])
}

/// `s` without the white space at its start.
pub(crate) fn trim_start(s: &str) -> (r: String)
    ensures
        r@ == trimmed_start(s@),
{
    let chars = to_chars(s);
    let mut n: usize = 0;
    assert(chars@.skip(0) =~= chars@);
    while n < chars.len() && is_white(chars[n])
        invariant
            n <= chars.len(),
            chars@ == s@,
            trimmed_start(chars@.skip(n as int)) == trimmed_start(s@),
        decreases chars.len() - n,
    {
        n += 1;
        assert(chars@.skip(n - 1).skip(1) =~= chars@.skip(n as int));
    }
    assert(chars@.subrange(n as int, chars@.len() as int) =~= chars@.skip(n as int));
    from_chars(&chars.as_slice()[n..chars.len()])
}

/// `s` without the white space at either end.
pub(crate) fn trim(s: &str) -> (r: String)
    ensures
        r@ == trimmed_end(trimmed_start(s@)),
{
    trim_end(trim_start(s).as_str())
}

/// What trimming the end of a text keeps and drops.
pub(crate) proof fn trimmed_end_is_trimmed(s: Seq<char>)
    ensures
        trimmed_end(s).len() > 0 ==> !is_space(trimmed_end(s).last()),
        trimmed_end(s) == s.take(trimmed_end(s).len() as int),
        trimmed_end(s).len() <= s.len(),
        forall|i: int| trimmed_end(s).len() <= i < s.len() ==> is_space(#[trigger] s[i]),
    decreases s.len(),
{
    if s.len() > 0 && is_space(s.last()) {
        trimmed_end_is_trimmed(s.drop_last());
        assert forall|i: int| trimmed_end(s).len() <= i < s.len() implies is_space(
            #[trigger] s[i],
        ) by {
            if i < s.len() - 1 {
                assert(s.drop_last()[i] == s[i]);
            }
        }
        assert(s.take(trimmed_end(s).len() as int) =~= s.drop_last().take(
            trimmed_end(s).len() as int,
        ));
    } else {
        assert(s.take(s.len() as int) =~= s);
    }
}

} // verus!
