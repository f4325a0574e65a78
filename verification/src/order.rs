//! Putting names in order.
//!
//! Neither a directory listing nor the firmware's handle order means
//! anything to the person reading it, and two sweeps of the same machine
//! should list the same things in the same order.

use crate::text::strings_of;
use vstd::prelude::*;
use vstd::utf8::encode_utf8;

verus! {

/// The bytes of `a` from `i` on come strictly before those of `b`, the way
/// words stand in a dictionary.
pub open spec fn before_from(a: Seq<u8>, b: Seq<u8>, i: int) -> bool
    decreases a.len() - i,
{
    if i < 0 || i >= b.len() {
        false
    } else if i >= a.len() {
        true
    } else if a[i] != b[i] {
        a[i] < b[i]
    } else {
        before_from(a, b, i + 1)
    }
}

/// A text stands strictly before another, byte by byte.
pub open spec fn before(a: Seq<char>, b: Seq<char>) -> bool {
    before_from(encode_utf8(a), encode_utf8(b), 0)
}

proof fn never_after_chains(a: Seq<u8>, b: Seq<u8>, c: Seq<u8>, i: int)
    requires
        0 <= i,
        !before_from(b, a, i),
        !before_from(c, b, i),
        i <= a.len(),
        i <= b.len(),
        i <= c.len(),
    ensures
        !before_from(c, a, i),
    decreases a.len() + b.len() + c.len() - i,
{
    if i < a.len() && i < b.len() && i < c.len() {
        if a[i] == b[i] && b[i] == c[i] {
            never_after_chains(a, b, c, i + 1);
        }
    }
}

proof fn never_both(a: Seq<u8>, b: Seq<u8>, i: int)
    requires
        0 <= i,
        before_from(a, b, i),
    ensures
        !before_from(b, a, i),
    decreases a.len() - i,
{
    if i < a.len() && a[i] == b[i] {
        never_both(a, b, i + 1);
    }
}

/// Whether a text stands strictly before another.
pub(crate) fn is_before(a: &str, b: &str) -> (r: bool)
    ensures
        r == before(a@, b@),
{
    let x = a.as_bytes();
    let y = b.as_bytes();
    let mut i: usize = 0;
    loop
        invariant
            x@ == encode_utf8(a@),
            y@ == encode_utf8(b@),
            i <= x@.len(),
            i <= y@.len(),
            before(a@, b@) == before_from(x@, y@, i as int),
        decreases x@.len() - i,
    {
        if i >= y.len() {
            return false;
        }
        if i >= x.len() {
            return true;
        }
        if x[i] != y[i] {
            return x[i] < y[i];
        }
        i += 1;
    }
}

/// The `a`th of these comes before the `b`th: by what it says, and by where
/// it stood where they say the same.
pub open spec fn precedes(keys: Seq<Seq<char>>, a: int, b: int) -> bool {
    !before(keys[b], keys[a]) && (before(keys[a], keys[b]) || a < b)
}

/// `p` lists the places of `keys` in order, each once.
pub open spec fn is_order(keys: Seq<Seq<char>>, p: Seq<usize>) -> bool {
    &&& p.len() == keys.len()
    &&& forall|i: int| 0 <= i < p.len() ==> (#[trigger] p[i]) < keys.len()
    &&& forall|i: int, j: int|
        0 <= i < j < p.len() ==> precedes(keys, #[trigger] p[i] as int, #[trigger] p[j] as int)
}

/// What stands at these places, one after the other.
pub open spec fn picked(keys: Seq<Seq<char>>, p: Seq<usize>) -> Seq<Seq<char>> {
    Seq::new(p.len(), |i: int| keys[p[i] as int])
}

/// `r` is `keys` put in order.
pub open spec fn in_order(keys: Seq<Seq<char>>, r: Seq<Seq<char>>) -> bool {
    exists|p: Seq<usize>| is_order(keys, p) && r == #[trigger] picked(keys, p)
}

/// Where in the order the next place belongs.
fn place_of(keys: &[String], p: &Vec<usize>, n: usize) -> (r: usize)
    requires
        n < keys@.len(),
        p@.len() == n,
        forall|i: int| 0 <= i < p@.len() ==> (#[trigger] p@[i]) < n,
        forall|i: int, j: int|
            0 <= i < j < p@.len() ==> precedes(
                strings_of(keys@),
                #[trigger] p@[i] as int,
                #[trigger] p@[j] as int,
            ),
    ensures
        r <= p@.len(),
        forall|i: int| 0 <= i < r ==> precedes(strings_of(keys@), #[trigger] p@[i] as int, n as int),
        forall|i: int|
            r <= i < p@.len() ==> precedes(strings_of(keys@), n as int, #[trigger] p@[i] as int),
{
    let ghost texts = strings_of(keys@);
    let mut at: usize = 0;
    while at < p.len() && !is_before(keys[n].as_str(), keys[p[at]].as_str())
        invariant
            at <= p@.len(),
            n < keys@.len(),
            p@.len() == n,
            texts == strings_of(keys@),
            forall|i: int| 0 <= i < p@.len() ==> (#[trigger] p@[i]) < n,
            forall|i: int| 0 <= i < at ==> !before(texts[n as int], texts[#[trigger] p@[i] as int]),
        decreases p@.len() - at,
    {
        at += 1;
    }
    proof {
        if at < p@.len() {
            let here = encode_utf8(texts[p@[at as int] as int]);
            let new = encode_utf8(texts[n as int]);
            assert forall|i: int| at <= i < p@.len() implies precedes(
                texts,
                n as int,
                #[trigger] p@[i] as int,
            ) by {
                let there = encode_utf8(texts[p@[i] as int]);
                if i > at {
                    assert(precedes(texts, p@[at as int] as int, p@[i] as int));
                    if !before_from(new, there, 0) {
                        never_after_chains(here, there, new, 0);
                    }
                }
                never_both(new, there, 0);
            }
        }
    }
    at
}

/// The places of `keys` in order.
pub fn sorted_order(keys: &[String]) -> (r: Vec<usize>)
    ensures
        is_order(strings_of(keys@), r@),
{
    let ghost texts = strings_of(keys@);
    let mut p: Vec<usize> = Vec::new();
    let mut n: usize = 0;
    while n < keys.len()
        invariant
            n <= keys@.len(),
            p@.len() == n,
            texts == strings_of(keys@),
            forall|i: int| 0 <= i < p@.len() ==> (#[trigger] p@[i]) < n,
            forall|i: int, j: int|
                0 <= i < j < p@.len() ==> precedes(
                    texts,
                    #[trigger] p@[i] as int,
                    #[trigger] p@[j] as int,
                ),
        decreases keys@.len() - n,
    {
        let at: usize = place_of(keys, &p, n);
        let ghost old_p = p@;
        p.insert(at, n);
        proof {
            let q = p@;
            assert(q == old_p.insert(at as int, n));
            assert forall|i: int, j: int| 0 <= i < j < q.len() implies precedes(
                texts,
                #[trigger] q[i] as int,
                #[trigger] q[j] as int,
            ) by {
                let a = if i < at {
                    i
                } else {
                    i - 1
                };
                let b = if j < at {
                    j
                } else {
                    j - 1
                };
                if i != at && j != at {
                    assert(precedes(texts, old_p[a] as int, old_p[b] as int));
                } else if i == at {
                    assert(precedes(texts, n as int, old_p[b] as int));
                } else {
                    assert(precedes(texts, old_p[a] as int, n as int));
                }
            }
        }
        n += 1;
    }
    p
}

/// The same names in order.
pub fn sorted_names(names: &[String]) -> (r: Vec<String>)
    ensures
        in_order(strings_of(names@), strings_of(r@)),
{
    let p = sorted_order(names);
    let ghost texts = strings_of(names@);
    let mut out: Vec<String> = Vec::new();
    let mut i: usize = 0;
    while i < p.len()
        invariant
            i <= p@.len(),
            out@.len() == i,
            texts == strings_of(names@),
            is_order(texts, p@),
            forall|j: int| 0 <= j < i ==> (#[trigger] out@[j])@ == texts[p@[j] as int],
        decreases p@.len() - i,
    {
        out.push(names[p[i]].clone());
        i += 1;
    }
    assert(strings_of(out@) =~= picked(texts, p@));
    out
}

/// Putting names in order repeats none, and what is listed later never stands
/// before what is listed earlier.
pub proof fn ordering_lists_each_once(keys: Seq<Seq<char>>, p: Seq<usize>, i: int, j: int)
    requires
        is_order(keys, p),
        0 <= i < j < p.len(),
    ensures
        p[i] != p[j],
        !before(keys[p[j] as int], keys[p[i] as int]),
{
    assert(precedes(keys, p[i] as int, p[j] as int));
    if p[i] == p[j] {
        let k = encode_utf8(keys[p[i] as int]);
        if before_from(k, k, 0) {
            never_both(k, k, 0);
        }
    }
}


/// Names stand as words in a dictionary do: at the first byte in which they
/// differ the smaller comes first, and a name comes before one that goes on
/// from it.
pub proof fn the_first_difference_decides(
    same: Seq<u8>,
    a: u8,
    b: u8,
    rest_a: Seq<u8>,
    rest_b: Seq<u8>,
)
    ensures
        a != b ==> before_from(same.push(a) + rest_a, same.push(b) + rest_b, 0) == (a < b),
        before_from(same, same.push(b) + rest_b, 0),
        !before_from(same.push(b) + rest_b, same, 0),
        !before_from(same, same, 0),
{
    skips_what_is_the_same(same.push(a) + rest_a, same.push(b) + rest_b, same, 0);
    skips_what_is_the_same(same, same.push(b) + rest_b, same, 0);
    skips_what_is_the_same(same.push(b) + rest_b, same, same, 0);
    skips_what_is_the_same(same, same, same, 0);
}

proof fn skips_what_is_the_same(a: Seq<u8>, b: Seq<u8>, same: Seq<u8>, i: int)
    requires
        0 <= i <= same.len(),
        same.len() <= a.len(),
        same.len() <= b.len(),
        forall|j: int| 0 <= j < same.len() ==> a[j] == b[j],
    ensures
        before_from(a, b, i) == before_from(a, b, same.len() as int),
    decreases same.len() - i,
{
    if i < same.len() {
        skips_what_is_the_same(a, b, same, i + 1);
    }
}

/// What was put in order is what there was, each name once.
pub proof fn nothing_is_lost_in_ordering(keys: Seq<Seq<char>>, r: Seq<Seq<char>>, p: Seq<usize>)
    requires
        is_order(keys, p),
        r == picked(keys, p),
    ensures
        r.len() == keys.len(),
        in_order(keys, r),
        forall|i: int, j: int| 0 <= i < j < p.len() ==> #[trigger] p[i] != #[trigger] p[j],
        forall|i: int| 0 <= i < r.len() ==> #[trigger] r[i] == keys[p[i] as int],
{
    assert forall|i: int, j: int| 0 <= i < j < p.len() implies #[trigger] p[i] != #[trigger] p[j] by {
        ordering_lists_each_once(keys, p, i, j);
    }
}

} // verus!
