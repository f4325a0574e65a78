//! The version a build reports, and the date it was made.
//!
//! A continuous build found on someone's ESP months later has to answer one
//! question: which commit is this? So everything that is not an exact tag
//! carries the commit as semver build metadata: `0.1.0+3.g1a2b3c4`.

use crate::text::{dec, dec_text, from_chars, pad_left, pad_left_text, same_text, to_chars};
use vstd::arithmetic::div_mod::{lemma_fundamental_div_mod, lemma_fundamental_div_mod_converse};
use vstd::prelude::*;

verus! {

// ------------------------------------------------------------------ the stamp

/// Where the last dash among the first `n` characters is, or -1.
pub open spec fn last_dash(s: Seq<char>, n: int) -> int
    decreases n,
{
    if n <= 0 {
        -1
    } else if s[n - 1] == '-' {
        n - 1
    } else {
        last_dash(s, n - 1)
    }
}

/// Every character is an ASCII digit.
pub open spec fn all_digits(s: Seq<char>) -> bool {
    forall|i: int| 0 <= i < s.len() ==> '0' <= #[trigger] s[i] <= '9'
}

/// The `-dirty` a description ends in where the checkout has changes.
pub open spec fn is_dirty(describe: Seq<char>) -> bool {
    let n = describe.len() as int;
    n >= 6 && describe.skip(n - 6) == "-dirty"@
}

/// A description without it.
pub open spec fn base_of(describe: Seq<char>) -> Seq<char> {
    if is_dirty(describe) {
        describe.take(describe.len() - 6)
    } else {
        describe
    }
}

/// What a description adds to the version.
///
/// Three shapes: `v0.1.0` sitting on a tag, `v0.1.0-3-g1a2b3c4` some commits
/// past one, and a bare `1a2b3c4` while the repository has no tags at all.
/// Only the first needs no commit in the version.
pub open spec fn commit_of(base: Seq<char>) -> Seq<char> {
    let second = last_dash(base, base.len() as int);
    let first = last_dash(base, second);
    let hash = base.skip(second + 1);
    let count = base.subrange(first + 1, second);
    if first >= 0 && hash.len() > 0 && hash[0] == 'g' && all_digits(count) {
        count + "."@ + hash
    } else if base.len() > 0 && base[0] == 'v' {
        Seq::empty()
    } else {
        "g"@ + base
    }
}

/// The part after the version: the commit, and whether it had changes.
pub open spec fn suffix_of(describe: Seq<char>) -> Seq<char> {
    let commit = commit_of(base_of(describe));
    if is_dirty(describe) {
        if commit.len() > 0 {
            commit + "."@ + "dirty"@
        } else {
            "dirty"@
        }
    } else {
        commit
    }
}

/// The version a build reports.
pub open spec fn stamp_text(pkg: Seq<char>, describe: Seq<char>) -> Seq<char> {
    if suffix_of(describe).len() == 0 {
        pkg
    } else {
        pkg + "+"@ + suffix_of(describe)
    }
}

/// Whether a build sits on a tag that is not the package's version: it
/// reports the package's.
pub open spec fn mistagged(pkg: Seq<char>, describe: Seq<char>) -> bool {
    let base = base_of(describe);
    let second = last_dash(base, base.len() as int);
    let first = last_dash(base, second);
    let past_a_tag = first >= 0 && base.skip(second + 1).len() > 0 && base.skip(second + 1)[0]
        == 'g' && all_digits(base.subrange(first + 1, second));
    !past_a_tag && base.len() > 0 && base[0] == 'v' && base.skip(1) != pkg
}

fn find_dash(s: &[char], n: usize) -> (r: Option<usize>)
    requires
        n <= s@.len(),
    ensures
        match r {
            Some(i) => last_dash(s@, n as int) == i && i < n,
            None => last_dash(s@, n as int) == -1,
        },
{
    let mut i: usize = n;
    while i > 0
        invariant
            i <= n <= s@.len(),
            last_dash(s@, n as int) == last_dash(s@, i as int),
        decreases i,
    {
        if s[i - 1] == '-' {
            return Some(i - 1);
        }
        i -= 1;
    }
    None
}

fn are_digits(s: &[char]) -> (r: bool)
    ensures
        r == all_digits(s@),
{
    let mut i: usize = 0;
    while i < s.len()
        invariant
            i <= s@.len(),
            forall|j: int| 0 <= j < i ==> '0' <= #[trigger] s@[j] <= '9',
        decreases s@.len() - i,
    {
        if !('0' <= s[i] && s[i] <= '9') {
            assert(!('0' <= s@[i as int] <= '9'));
            return false;
        }
        i += 1;
    }
    true
}

/// Turn `git describe` output into the version the application reports, and
/// say whether it sits on a tag that does not match.
pub fn stamp(pkg: &str, describe: &str) -> (r: (String, bool))
    ensures
        r.0@ == stamp_text(pkg@, describe@),
        r.1 == mistagged(pkg@, describe@),
{
    let chars = to_chars(describe);
    let all = chars.as_slice();
    let n: usize = all.len();
    let dirty: bool = if n >= 6 {
        assert(all@.subrange(n - 6, n as int) =~= describe@.skip(n - 6));
        same_text(from_chars(&all[n - 6..n]).as_str(), "-dirty")
    } else {
        false
    };
    let keep: usize = if dirty {
        n - 6
    } else {
        n
    };
    let base = &all[0..keep];
    assert(base@ =~= base_of(describe@));
    let mut past_a_tag = false;
    let mut suffix = String::new();
    assert(suffix@ =~= Seq::<char>::empty());
    if let Some(second) = find_dash(base, keep) {
        if let Some(first) = find_dash(base, second) {
            let hash = &base[second + 1..keep];
            let count = &base[first + 1..second];
            assert(hash@ =~= base@.skip(second + 1));
            if hash.len() > 0 && hash[0] == 'g' && are_digits(count) {
                past_a_tag = true;
                let mut s = from_chars(count);
                s.push_str(".");
                s.push_str(from_chars(hash).as_str());
                suffix = s;
            }
        }
    }
    let mut wrong_tag = false;
    if !past_a_tag {
        if base.len() > 0 && base[0] == 'v' {
            let tag = &base[1..keep];
            assert(tag@ =~= base@.skip(1));
            wrong_tag = !same_text(from_chars(tag).as_str(), pkg);
        } else {
            let mut s = "g".to_owned();
            s.push_str(from_chars(base).as_str());
            suffix = s;
        }
    }
    assert(suffix@ == commit_of(base@));
    if dirty {
        if suffix.as_str().unicode_len() > 0 {
            suffix.push_str(".");
            suffix.push_str("dirty");
        } else {
            suffix = "dirty".to_owned();
        }
    }
    if suffix.as_str().unicode_len() == 0 {
        (pkg.to_owned(), wrong_tag)
    } else {
        let mut s = pkg.to_owned();
        s.push_str("+");
        s.push_str(suffix.as_str());
        (s, wrong_tag)
    }
}

// ------------------------------------------------------------------- the date

/// A leap year of the Gregorian calendar.
pub open spec fn leap(y: int) -> bool {
    y % 4 == 0 && (y % 100 != 0 || y % 400 == 0)
}

/// The days in a month.
pub open spec fn month_len(y: int, m: int) -> int {
    if m == 2 {
        if leap(y) {
            29
        } else {
            28
        }
    } else if m == 4 || m == 6 || m == 9 || m == 11 {
        30
    } else {
        31
    }
}

/// The days of the year before a month of it.
pub open spec fn days_before_month(y: int, m: int) -> int
    decreases m,
{
    if m <= 1 {
        0
    } else {
        days_before_month(y, m - 1) + month_len(y, m - 1)
    }
}

/// The days from the first of January of year 0 to that of year `y`.
pub open spec fn days_before_year(y: int) -> int {
    365 * y + (y - 1) / 4 - (y - 1) / 100 + (y - 1) / 400 + 1
}

/// The days from the first of January 1970 to a date.
pub open spec fn day_number(y: int, m: int, d: int) -> int {
    days_before_year(y) + days_before_month(y, m) + d - 1 - 719528
}

/// Day 0 is the first of January 1970, a year has 365 days or 366 if it is a
/// leap year, and the months fill it.
pub proof fn the_calendar_is_right(y: int)
    ensures
        day_number(1970, 1, 1) == 0,
        days_before_year(y + 1) - days_before_year(y) == if leap(y) {
            366int
        } else {
            365
        },
        days_before_month(y, 13) == if leap(y) {
            366int
        } else {
            365
        },
{
    months_before(y);
}

/// The days before each month.
proof fn months_before(y: int)
    ensures
        ({
            let l = if leap(y) {
                1int
            } else {
                0
            };
            &&& days_before_month(y, 1) == 0
            &&& days_before_month(y, 2) == 31
            &&& days_before_month(y, 3) == 59 + l
            &&& days_before_month(y, 4) == 90 + l
            &&& days_before_month(y, 5) == 120 + l
            &&& days_before_month(y, 6) == 151 + l
            &&& days_before_month(y, 7) == 181 + l
            &&& days_before_month(y, 8) == 212 + l
            &&& days_before_month(y, 9) == 243 + l
            &&& days_before_month(y, 10) == 273 + l
            &&& days_before_month(y, 11) == 304 + l
            &&& days_before_month(y, 12) == 334 + l
            &&& days_before_month(y, 13) == 365 + l
        }),
{
    reveal_with_fuel(days_before_month, 14);
}

/// Where in its 400 years a day is: the year, counted from March, and the
/// day of it.
proof fn year_of_era(doe: u32)
    by (bit_vector)
    requires
        doe < 146097,
    ensures
        ({
            let days: u32 = (doe - doe / 1460 + doe / 36524 - doe / 146096) as u32;
            let yoe: u32 = days / 365;
            let start: u32 = (365 * yoe + yoe / 4 - yoe / 100) as u32;
            let doy: u32 = (doe - start) as u32;
            let next: u32 = (yoe + 1) as u32;
            &&& yoe < 400
            &&& start <= doe
            &&& doy <= 365
            &&& (doy == 365 ==> next % 4 == 0 && (next % 100 != 0 || next == 400))
        }),
{
}

/// The days of a year counted from March before a month of it.
spec fn from_march(mp: int) -> int {
    (153 * mp + 2) / 5
}

/// Which month, counted from March, a day of the year is in, and which day
/// of it.
proof fn month_of_year(doy: int, mp: int, d: int)
    requires
        0 <= doy <= 365,
        mp == (5 * doy + 2) / 153,
        d == doy - from_march(mp) + 1,
    ensures
        0 <= mp <= 11,
        1 <= d <= if mp == 11 {
            29int
        } else if mp == 1 || mp == 3 || mp == 6 || mp == 8 {
            30
        } else {
            31
        },
        mp == 11 && doy <= 364 ==> d <= 28,
{
    if mp == 0 {
    } else if mp == 1 {
    } else if mp == 2 {
    } else if mp == 3 {
    } else if mp == 4 {
    } else if mp == 5 {
    } else if mp == 6 {
    } else if mp == 7 {
    } else if mp == 8 {
    } else if mp == 9 {
    } else if mp == 10 {
    } else {
        assert(mp == 11);
    }
}

/// The days before a year, counted from a multiple of 400 years before it.
proof fn eras_repeat(y: int, era: int)
    ensures
        days_before_year(y + 400 * era) == days_before_year(y) + 146097 * era,
        leap(y + 400 * era) == leap(y),
{
    periods_repeat(y - 1, 400 * era, 4, 100 * era);
    periods_repeat(y - 1, 400 * era, 100, 4 * era);
    periods_repeat(y - 1, 400 * era, 400, era);
    periods_repeat(y, 400 * era, 4, 100 * era);
    periods_repeat(y, 400 * era, 100, 4 * era);
    periods_repeat(y, 400 * era, 400, era);
}

proof fn periods_repeat(x: int, shift: int, period: int, n: int)
    requires
        period > 0,
        shift == n * period,
    ensures
        (x + shift) / period == x / period + n,
        (x + shift) % period == x % period,
{
    lemma_fundamental_div_mod(x, period);
    let (q, r) = (x / period, x % period);
    assert((q + n) * period == period * q + n * period) by (nonlinear_arith);
    lemma_fundamental_div_mod_converse(x + shift, period, q + n, r);
}

/// A date of the year that began in March of `yoe`.
proof fn date_of_year(yoe: int, doy: int, mp: int, d: int, m: int, y: int)
    requires
        0 <= yoe < 400,
        0 <= doy <= 365,
        doy == 365 ==> (yoe + 1) % 4 == 0 && ((yoe + 1) % 100 != 0 || yoe + 1 == 400),
        mp == (5 * doy + 2) / 153,
        d == doy - from_march(mp) + 1,
        m == if mp < 10 {
            mp + 3
        } else {
            mp - 9
        },
        y == if m <= 2 {
            yoe + 1
        } else {
            yoe
        },
    ensures
        1 <= m <= 12,
        1 <= d <= month_len(y, m),
        days_before_year(y) + days_before_month(y, m) + d - 1 == 365 * yoe + yoe / 4 - yoe / 100
            + doy + 60,
{
    month_of_year(doy, mp, d);
    months_before(y);
    assert(days_before_year(yoe) + (if leap(yoe) {
        1int
    } else {
        0
    }) == 365 * yoe + yoe / 4 - yoe / 100 + 1);
    if m <= 2 {
        assert(days_before_year(yoe + 1) == 365 * (yoe + 1) + yoe / 4 - yoe / 100 + 1);
    }
}

/// Days since the Unix epoch to a proleptic Gregorian (year, month, day).
pub fn civil_from_days(z: i64) -> (r: (i64, u32, u32))
    requires
        z <= i64::MAX - 719468,
    ensures
        1 <= r.1 <= 12,
        1 <= r.2 <= month_len(r.0 as int, r.1 as int),
        day_number(r.0 as int, r.1 as int, r.2 as int) == z,
{
    // Counted in eras of 400 years from a first of March long before any
    // date there is, so that nothing below is negative.
    let shifted: i128 = z as i128 + 719468 + 146097 * 64_000_000_000_000;
    let era: i128 = shifted / 146097 - 64_000_000_000_000;
    let doe: u32 = (shifted % 146097) as u32;
    assert(z + 719468 == era * 146097 + doe);
    proof {
        year_of_era(doe);
    }
    let yoe: u32 = (doe - doe / 1460 + doe / 36524 - doe / 146096) / 365;
    let doy: u32 = doe - (365 * yoe + yoe / 4 - yoe / 100);
    let mp: u32 = (5 * doy + 2) / 153;
    proof {
        month_of_year(doy as int, mp as int, doy - from_march(mp as int) + 1);
    }
    let d: u32 = doy - (153 * mp + 2) / 5 + 1;
    let m: u32 = if mp < 10 {
        mp + 3
    } else {
        mp - 9
    };
    let year: u32 = if m <= 2 {
        yoe + 1
    } else {
        yoe
    };
    let y: i128 = year as i128 + era * 400;
    proof {
        date_of_year(yoe as int, doy as int, mp as int, d as int, m as int, year as int);
        eras_repeat(year as int, era as int);
        months_before(year as int);
        months_before(y as int);
    }
    (y as i64, m, d)
}

/// A number with at least `width` digits.
pub open spec fn padded(n: int, width: nat) -> Seq<char> {
    pad_left(dec(n as nat), width, '0')
}

/// A moment in RFC 3339 format, in UTC.
pub open spec fn moment_text(y: int, m: int, d: int, time: int) -> Seq<char> {
    padded(y, 4) + "-"@ + padded(m, 2) + "-"@ + padded(d, 2) + "T"@ + padded(time / 3600, 2)
        + ":"@ + padded(time / 60 % 60, 2) + ":"@ + padded(time % 60, 2) + "Z"@
}

fn padded_text(n: u64, width: usize) -> (r: String)
    ensures
        r@ == padded(n as int, width as nat),
{
    pad_left_text(dec_text(n).as_str(), width, '0')
}

/// A build timestamp, in RFC 3339 format and in UTC, from the seconds since
/// the Unix epoch.
pub fn compile_date(secs: u64) -> (r: String)
    requires
        secs <= i64::MAX,
    ensures
        exists|y: int, m: int, d: int|
            1 <= m <= 12 && 1 <= d <= month_len(y, m) && day_number(y, m, d) == secs / 86400
                && r@ == #[trigger] moment_text(y, m, d, secs as int % 86400),
{
    let days: u64 = secs / 86400;
    let time: u64 = secs % 86400;
    let (year, month, day) = civil_from_days(days as i64);
    proof {
        months_before(year as int);
    }
    assert(year >= 0);
    let mut s = padded_text(year as u64, 4);
    s.push_str("-");
    s.push_str(padded_text(month as u64, 2).as_str());
    s.push_str("-");
    s.push_str(padded_text(day as u64, 2).as_str());
    s.push_str("T");
    s.push_str(padded_text(time / 3600, 2).as_str());
    s.push_str(":");
    s.push_str(padded_text(time / 60 % 60, 2).as_str());
    s.push_str(":");
    s.push_str(padded_text(time % 60, 2).as_str());
    s.push_str("Z");
    assert(s@ == moment_text(year as int, month as int, day as int, secs as int % 86400));
    s
}


proof fn the_last_dash(s: Seq<char>, n: int, at: int)
    requires
        -1 <= at < n <= s.len(),
        at >= 0 ==> s[at] == '-',
        forall|j: int| at < j < n ==> s[j] != '-',
    ensures
        last_dash(s, n) == at,
    decreases n,
{
    if n - 1 > at {
        the_last_dash(s, n - 1, at);
    }
}

/// A build some commits past a tag is stamped with how many and which, a
/// build of changed sources says so, a build of the tag is stamped with the
/// version alone, and a build with no tag with its commit.
pub proof fn a_stamp_says_what_was_built(
    pkg: Seq<char>,
    tag: Seq<char>,
    count: Seq<char>,
    hash: Seq<char>,
)
    requires
        hash.len() > 0,
        !hash.contains('-'),
        forall|i: int| 0 <= i < count.len() ==> '0' <= #[trigger] count[i] <= '9',
    ensures
        hash[0] == 'g' ==> {
            let past = tag + "-"@ + count + "-"@ + hash;
            &&& stamp_text(pkg, past) == pkg + "+"@ + count + "."@ + hash
            &&& stamp_text(pkg, past + "-dirty"@) == pkg + "+"@ + count + "."@ + hash + ".dirty"@
            &&& !mistagged(pkg, past)
        },
        hash[0] == 'v' ==> {
            &&& stamp_text(pkg, hash) == pkg
            &&& stamp_text(pkg, hash + "-dirty"@) == pkg + "+dirty"@
            &&& mistagged(pkg, hash) == (hash.skip(1) != pkg)
        },
        hash[0] != 'v' ==> {
            &&& stamp_text(pkg, hash) == pkg + "+g"@ + hash
            &&& stamp_text(pkg, hash + "-dirty"@) == pkg + "+g"@ + hash + ".dirty"@
            &&& !mistagged(pkg, hash)
        },
{
    reveal_strlit("-");
    reveal_strlit(".");
    reveal_strlit("+");
    reveal_strlit("g");
    reveal_strlit("+g");
    reveal_strlit("dirty");
    reveal_strlit("+dirty");
    reveal_strlit(".dirty");
    reveal_strlit("-dirty");
    assert forall|j: int| 0 <= j < hash.len() implies hash[j] != '-' by {
        assert(hash.contains(hash[j]));
    }
    // no tag in sight
    let n = hash.len() as int;
    the_last_dash(hash, n, -1);
    if is_dirty(hash) {
        assert(hash.skip(n - 6)[0] == '-');
        assert(hash[n - 6] == '-');
    }
    a_changed_build(hash);
    assert(last_dash(hash, -1) == -1);
    assert("g"@ + hash =~= seq!['g'] + hash);
    if hash[0] == 'v' {
        assert(stamp_text(pkg, hash + "-dirty"@) =~= pkg + "+dirty"@);
    } else {
        assert(stamp_text(pkg, hash) =~= pkg + "+g"@ + hash);
        assert(stamp_text(pkg, hash + "-dirty"@) =~= pkg + "+g"@ + hash + ".dirty"@);
    }
    if hash[0] == 'g' {
        let past = tag + "-"@ + count + "-"@ + hash;
        let first = tag.len() as int;
        let second = first + 1 + count.len();
        let len = past.len() as int;
        assert(past[second] == '-');
        assert(past[first] == '-');
        assert forall|j: int| second < j < len implies past[j] != '-' by {
            assert(past[j] == hash[j - second - 1]);
        }
        assert forall|j: int| first < j < second implies past[j] != '-' by {
            assert(past[j] == count[j - first - 1]);
        }
        the_last_dash(past, len, second);
        the_last_dash(past, second, first);
        assert(past.skip(second + 1) =~= hash);
        assert(past.subrange(first + 1, second) =~= count);
        if is_dirty(past) {
            let tail = past.skip(len - 6);
            assert(tail == "-dirty"@);
            assert("-dirty"@[0] == '-' && "-dirty"@[1] == 'd');
            assert(tail[0] == past[len - 6]);
            assert(len - 6 <= second);
            assert(second <= len - 6) by {
                if second > len - 6 {
                    assert(past[second] == tail[second - (len - 6)]);
                }
            }
            assert(past[second + 1] == tail[1]);
            assert(tail[1] == 'd');
            assert(past[second + 1] == hash[0]);
        }
        a_changed_build(past);
        assert(stamp_text(pkg, past) =~= pkg + "+"@ + count + "."@ + hash);
        assert(stamp_text(pkg, past + "-dirty"@) =~= pkg + "+"@ + count + "."@ + hash + ".dirty"@);
    }
}

proof fn a_changed_build(base: Seq<char>)
    ensures
        is_dirty(base + "-dirty"@),
        base_of(base + "-dirty"@) == base,
{
    reveal_strlit("-dirty");
    let all = base + "-dirty"@;
    assert(all.skip(all.len() - 6) =~= "-dirty"@);
    assert(all.take(all.len() - 6) =~= base);
}

} // verus!
