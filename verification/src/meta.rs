//! The key/value metadata section shared by the snapshot formats.
//!
//! Tab-separated, newline-terminated: trivially readable in a hex dump,
//! which is the situation this data exists for. Deliberately text rather
//! than struct fields. It is read by a person years later trying to work
//! out whether a file belongs to the machine in front of them, and an
//! unknown key they can still read beats a decoder that rejects the file.

use crate::bytes::copied;
use crate::text::{from_chars, has_char, to_chars, utf8_text};
use vstd::prelude::*;
use vstd::utf8::{decode_utf8, encode_utf8, encode_utf8_decode_utf8, encode_utf8_valid_utf8, valid_utf8};

verus! {

/// How many pairs a metadata section may carry. Provenance is eight keys
/// or so; this is room to grow and a bound on a file nobody signed.
pub const MAX_PAIRS: usize = 64;

/// A key and its value, as text.
pub type Pair = (Seq<char>, Seq<char>);

/// Owned pairs as values.
pub open spec fn pairs_of(meta: Seq<(String, String)>) -> Seq<Pair> {
    Seq::new(meta.len(), |i: int| (meta[i].0@, meta[i].1@))
}

/// The pair can be framed by a tab and a newline.
pub open spec fn framable(p: Pair) -> bool {
    !p.0.contains('\t') && !p.0.contains('\n') && !p.1.contains('\n')
}

/// The text of the first `n` pairs, one line each. A pair that would break
/// the framing is dropped rather than escaped.
pub open spec fn meta_text(pairs: Seq<Pair>, n: nat) -> Seq<char>
    decreases n,
{
    if n == 0 {
        Seq::empty()
    } else {
        let rest = meta_text(pairs, (n - 1) as nat);
        let p = pairs[n - 1];
        if framable(p) {
            (rest + p.0).push('\t') + p.1 + seq!['\n']
        } else {
            rest
        }
    }
}

/// The bytes of a metadata section.
pub open spec fn meta_bytes(pairs: Seq<Pair>) -> Seq<u8> {
    encode_utf8(meta_text(pairs, pairs.len()))
}

pub fn encode_meta(meta: &[(String, String)]) -> (r: Vec<u8>)
    ensures
        r@ == meta_bytes(pairs_of(meta@)),
{
    let mut out = String::new();
    let mut i: usize = 0;
    while i < meta.len()
        invariant
            i <= meta.len(),
            out@ == meta_text(pairs_of(meta@), i as nat),
        decreases meta.len() - i,
    {
        let k = meta[i].0.as_str();
        let v = meta[i].1.as_str();
        // Nothing this tool writes contains either.
        if !has_char(k, '\t') && !has_char(k, '\n') && !has_char(v, '\n') {
            out.push_str(k);
            out.push('\t');
            out.push_str(v);
            let ghost before = out@;
            out.push('\n');
            assert(out@ =~= before + seq!['\n']);
        }
        i += 1;
    }
    let b = out.as_str().as_bytes();
    let r = copied(b, 0, b.len());
    assert(r@ =~= b@);
    r
}

// ------------------------------------------------------------ reading lines

/// Where the first newline is, or the length if there is none.
pub open spec fn line_end(t: Seq<char>) -> int
    decreases t.len(),
{
    if t.len() == 0 || t[0] == '\n' {
        0
    } else {
        1 + line_end(t.skip(1))
    }
}

/// The first line of `t`, without its line ending. A carriage return belongs
/// to the line ending only where a newline follows it.
pub open spec fn first_line(t: Seq<char>) -> Seq<char> {
    let e = line_end(t);
    if e < t.len() && e > 0 && t[e - 1] == '\r' {
        t.take(e - 1)
    } else {
        t.take(e)
    }
}

/// Where the first tab is, or the length if there is none.
pub open spec fn tab_at(l: Seq<char>) -> int
    decreases l.len(),
{
    if l.len() == 0 || l[0] == '\t' {
        0
    } else {
        1 + tab_at(l.skip(1))
    }
}

/// The pair on a line, if there is a tab in it.
pub open spec fn line_pairs(l: Seq<char>) -> Seq<Pair> {
    let at = tab_at(l);
    if at < l.len() {
        seq![(l.take(at), l.skip(at + 1))]
    } else {
        Seq::empty()
    }
}

/// The pairs on the first `n` lines of `t`.
pub open spec fn text_pairs(t: Seq<char>, n: nat) -> Seq<Pair>
    decreases n,
{
    if n == 0 || t.len() == 0 {
        Seq::empty()
    } else {
        let e = line_end(t);
        let here = line_pairs(first_line(t));
        if e < t.len() {
            here + text_pairs(t.skip(e + 1), (n - 1) as nat)
        } else {
            here
        }
    }
}

/// The pairs a metadata section holds: none if it is not text.
pub open spec fn section_pairs(bytes: Seq<u8>) -> Seq<Pair> {
    if valid_utf8(bytes) {
        text_pairs(decode_utf8(bytes), MAX_PAIRS as nat)
    } else {
        Seq::empty()
    }
}

proof fn line_end_bounds(t: Seq<char>)
    ensures
        0 <= line_end(t) <= t.len(),
        line_end(t) < t.len() ==> t[line_end(t)] == '\n',
        forall|j: int| 0 <= j < line_end(t) ==> t[j] != '\n',
    decreases t.len(),
{
    if t.len() > 0 && t[0] != '\n' {
        line_end_bounds(t.skip(1));
        assert forall|j: int| 0 <= j < line_end(t) implies t[j] != '\n' by {
            if j > 0 {
                assert(t.skip(1)[j - 1] != '\n');
            }
        }
    }
}

proof fn line_end_at(t: Seq<char>, e: int)
    requires
        0 <= e <= t.len(),
        forall|j: int| 0 <= j < e ==> t[j] != '\n',
        e < t.len() ==> t[e] == '\n',
    ensures
        line_end(t) == e,
    decreases e,
{
    if e > 0 {
        assert forall|j: int| 0 <= j < e - 1 implies t.skip(1)[j] != '\n' by {
            assert(t[j + 1] != '\n');
        }
        line_end_at(t.skip(1), e - 1);
    }
}

proof fn tab_at_is(l: Seq<char>, at: int)
    requires
        0 <= at <= l.len(),
        forall|j: int| 0 <= j < at ==> l[j] != '\t',
        at < l.len() ==> l[at] == '\t',
    ensures
        tab_at(l) == at,
    decreases at,
{
    if at > 0 {
        assert forall|j: int| 0 <= j < at - 1 implies l.skip(1)[j] != '\t' by {
            assert(l[j + 1] != '\t');
        }
        tab_at_is(l.skip(1), at - 1);
    }
}

/// The pair on the line `t[from..to]`, appended to `out` if there is one.
fn push_pair(out: &mut Vec<(String, String)>, t: &[char], from: usize, to: usize)
    requires
        from <= to <= t@.len(),
    ensures
        pairs_of(final(out)@) == pairs_of(old(out)@) + line_pairs(
            t@.subrange(from as int, to as int),
        ),
{
    let ghost l = t@.subrange(from as int, to as int);
    let mut at: usize = from;
    while at < to && t[at] != '\t'
        invariant
            from <= at <= to,
            to <= t@.len(),
            forall|j: int| from <= j < at ==> t@[j] != '\t',
        decreases to - at,
    {
        at += 1;
    }
    proof {
        assert forall|j: int| 0 <= j < at - from implies l[j] != '\t' by {
            assert(t@[from + j] != '\t');
        }
        tab_at_is(l, at - from);
    }
    if at < to {
        let k = from_chars(&t[from..at]);
        let v = from_chars(&t[at + 1..to]);
        assert(k@ =~= l.take(at - from));
        assert(v@ =~= l.skip(at - from + 1));
        out.push((k, v));
        assert(pairs_of(out@) =~= pairs_of(old(out)@) + line_pairs(l));
    } else {
        assert(pairs_of(out@) =~= pairs_of(old(out)@) + line_pairs(l));
    }
}

pub fn decode_meta(bytes: &[u8]) -> (r: Vec<(String, String)>)
    ensures
        pairs_of(r@) == section_pairs(bytes@),
{
    let mut out: Vec<(String, String)> = Vec::new();
    assert(pairs_of(out@) =~= Seq::<Pair>::empty());
    let text = match utf8_text(bytes) {
        Some(text) => text,
        None => return out,
    };
    let t = to_chars(text.as_str());
    let mut from: usize = 0;
    let mut left: usize = MAX_PAIRS;
    let mut more = true;
    assert(t@.skip(0) =~= t@);
    assert(pairs_of(out@) + text_pairs(t@, MAX_PAIRS as nat) =~= section_pairs(bytes@));
    // A reader shows one line per pair, so a section is bounded: nothing
    // else stops a megabyte of two-byte pairs.
    while more && left > 0 && from < t.len()
        invariant
            from <= t.len(),
            left <= MAX_PAIRS,
            more ==> pairs_of(out@) + text_pairs(t@.skip(from as int), left as nat)
                == section_pairs(bytes@),
            !more ==> pairs_of(out@) == section_pairs(bytes@),
        decreases left,
    {
        let ghost rest = t@.skip(from as int);
        let ghost before = pairs_of(out@);
        let mut end: usize = from;
        while end < t.len() && t[end] != '\n'
            invariant
                from <= end <= t.len(),
                forall|j: int| from <= j < end ==> t@[j] != '\n',
            decreases t.len() - end,
        {
            end += 1;
        }
        proof {
            assert forall|j: int| 0 <= j < end - from implies rest[j] != '\n' by {
                assert(t@[from + j] != '\n');
            }
            line_end_at(rest, end - from);
        }
        let stop: usize = if end < t.len() && end > from && t[end - 1] == '\r' {
            end - 1
        } else {
            end
        };
        assert(first_line(rest) =~= t@.subrange(from as int, stop as int));
        push_pair(&mut out, t.as_slice(), from, stop);
        left -= 1;
        if end < t.len() {
            assert(rest.skip(end - from + 1) =~= t@.skip(end + 1));
            assert(before + (line_pairs(first_line(rest)) + text_pairs(
                t@.skip(end + 1),
                left as nat,
            )) =~= pairs_of(out@) + text_pairs(t@.skip(end + 1), left as nat));
            from = end + 1;
        } else {
            more = false;
        }
    }
    if more {
        assert(text_pairs(t@.skip(from as int), left as nat) =~= Seq::<Pair>::empty());
        assert(pairs_of(out@) =~= section_pairs(bytes@));
    }
    out
}

/// The pair survives being written on a line and read off it again.
pub open spec fn durable(p: Pair) -> bool {
    framable(p) && !(p.1.len() > 0 && p.1.last() == '\r')
}

proof fn text_pairs_of_meta_text(pairs: Seq<Pair>, from: int, n: nat, limit: nat)
    requires
        0 <= from,
        from + n == pairs.len(),
        n <= limit,
        forall|i: int| 0 <= i < pairs.len() ==> durable(#[trigger] pairs[i]),
    ensures
        text_pairs(meta_tail(pairs, from), limit) == pairs.skip(from),
    decreases n,
{
    let t = meta_tail(pairs, from);
    if n == 0 {
        assert(text_pairs(t, limit) =~= pairs.skip(from));
    } else {
        let p = pairs[from];
        let rest = meta_tail(pairs, from + 1);
        let head = p.0.push('\t') + p.1;
        assert(durable(p));
        assert(t == head.push('\n') + rest);
        assert forall|j: int| 0 <= j < head.len() implies t[j] != '\n' by {
            if j < p.0.len() {
                assert(p.0.contains(p.0[j]));
            } else if j > p.0.len() {
                assert(p.1.contains(p.1[j - p.0.len() - 1]));
            }
        }
        assert(t[head.len() as int] == '\n');
        line_end_at(t, head.len() as int);
        assert(head.last() != '\r') by {
            if p.1.len() > 0 {
                assert(head.last() == p.1.last());
            }
        }
        assert(t[head.len() - 1] == head.last());
        assert(first_line(t) =~= head);
        assert forall|j: int| 0 <= j < p.0.len() implies head[j] != '\t' by {
            assert(p.0.contains(p.0[j]));
        }
        tab_at_is(head, p.0.len() as int);
        assert(head.take(p.0.len() as int) =~= p.0);
        assert(head.skip(p.0.len() as int + 1) =~= p.1);
        assert(t.skip(head.len() as int + 1) =~= rest);
        text_pairs_of_meta_text(pairs, from + 1, (n - 1) as nat, (limit - 1) as nat);
        assert(seq![p] + pairs.skip(from + 1) =~= pairs.skip(from));
    }
}

/// The text of the pairs from `from` on, all of them framable.
spec fn meta_tail(pairs: Seq<Pair>, from: int) -> Seq<char>
    decreases pairs.len() - from,
{
    if from < 0 || from >= pairs.len() {
        Seq::empty()
    } else {
        (pairs[from].0.push('\t') + pairs[from].1).push('\n') + meta_tail(pairs, from + 1)
    }
}

proof fn meta_text_splits(pairs: Seq<Pair>, n: nat)
    requires
        n <= pairs.len(),
        forall|i: int| 0 <= i < pairs.len() ==> framable(#[trigger] pairs[i]),
    ensures
        meta_text(pairs, n) + meta_tail(pairs, n as int) == meta_tail(pairs, 0),
    decreases n,
{
    if n == 0 {
        assert(meta_text(pairs, n) + meta_tail(pairs, 0) =~= meta_tail(pairs, 0));
    } else {
        meta_text_splits(pairs, (n - 1) as nat);
        let p = pairs[n - 1];
        assert(framable(p));
        let before = meta_text(pairs, (n - 1) as nat);
        let after = meta_tail(pairs, n as int);
        assert((before + p.0).push('\t') + p.1 + seq!['\n'] + after =~= before + ((p.0.push('\t')
            + p.1).push('\n') + after));
    }
}

/// Metadata of at most [`MAX_PAIRS`] pairs that can be framed, none of whose
/// values ends in a carriage return, reads back as it was written.
pub proof fn metadata_round_trips(pairs: Seq<Pair>)
    requires
        pairs.len() <= MAX_PAIRS,
        forall|i: int| 0 <= i < pairs.len() ==> durable(#[trigger] pairs[i]),
    ensures
        section_pairs(meta_bytes(pairs)) == pairs,
{
    let t = meta_text(pairs, pairs.len());
    encode_utf8_valid_utf8(t);
    encode_utf8_decode_utf8(t);
    assert forall|i: int| 0 <= i < pairs.len() implies framable(#[trigger] pairs[i]) by {
        assert(durable(pairs[i]));
    }
    meta_text_splits(pairs, pairs.len());
    assert(t + meta_tail(pairs, pairs.len() as int) =~= t);
    text_pairs_of_meta_text(pairs, 0, pairs.len(), MAX_PAIRS as nat);
    assert(pairs.skip(0) =~= pairs);
}

/// However long a metadata section is, no more than [`MAX_PAIRS`] pairs come
/// out of it.
pub proof fn metadata_is_bounded(bytes: Seq<u8>)
    ensures
        section_pairs(bytes).len() <= MAX_PAIRS,
{
    if valid_utf8(bytes) {
        text_pairs_bounded(decode_utf8(bytes), MAX_PAIRS as nat);
    }
}

proof fn text_pairs_bounded(t: Seq<char>, n: nat)
    ensures
        text_pairs(t, n).len() <= n,
    decreases n,
{
    if n > 0 && t.len() > 0 {
        let e = line_end(t);
        line_end_bounds(t);
        if e < t.len() {
            text_pairs_bounded(t.skip(e + 1), (n - 1) as nat);
        }
    }
}


/// A pair that cannot be framed as a line is left out, and the others are
/// written as if it had not been there.
pub proof fn what_cannot_be_framed_is_left_out(
    pairs: Seq<Pair>,
    n: nat,
    fits: spec_fn(Pair) -> bool,
)
    requires
        n <= pairs.len(),
        forall|p: Pair| #[trigger]
            fits(p) == (!p.0.contains('\t') && !p.0.contains('\n') && !p.1.contains('\n')),
    ensures
        meta_text(pairs, n) == meta_text(
            pairs.take(n as int).filter(fits),
            pairs.take(n as int).filter(fits).len(),
        ),
    decreases n,
{
    reveal(Seq::filter);
    let all = pairs.take(n as int);
    if n > 0 {
        what_cannot_be_framed_is_left_out(pairs, (n - 1) as nat, fits);
        let p = pairs[n - 1];
        assert(all.drop_last() =~= pairs.take(n - 1));
        assert(all.last() == p);
        let kept = pairs.take(n - 1).filter(fits);
        if fits(p) {
            assert(all.filter(fits) == kept.push(p));
            text_of_prefix(kept.push(p), kept, kept.len());
        } else {
            assert(all.filter(fits) == kept);
        }
    } else {
        assert(all =~= Seq::<Pair>::empty());
    }
}

proof fn text_of_prefix(a: Seq<Pair>, b: Seq<Pair>, n: nat)
    requires
        n <= a.len(),
        n <= b.len(),
        forall|i: int| 0 <= i < n ==> a[i] == b[i],
    ensures
        meta_text(a, n) == meta_text(b, n),
    decreases n,
{
    if n > 0 {
        text_of_prefix(a, b, (n - 1) as nat);
    }
}

} // verus!
