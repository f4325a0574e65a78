//! Does the recovered table actually look like this machine's disk?
//!
//! Two independent questions, kept separate on purpose:
//!
//! * [`check_structure`]: is the table internally coherent? Overlapping
//!   or out-of-range partitions mean the secondary is garbage, and that is
//!   a hard refusal.
//! * [`recognize`]: does it look like a SteamOS install? A secondary that
//!   parses perfectly but describes a layout from two reinstalls ago is
//!   exactly the failure this is meant to catch. It can only ever lower
//!   confidence and demand a closer look from the operator; it never
//!   authorises a write on its own.
//!
//! The Deck dual-boots, so Windows partitions are expected company and are
//! recognised rather than treated as suspicious.

use crate::bytes::{bytes16, bytes32};
use crate::entry::PartitionEntry;
use crate::guid::Guid;
use crate::text::{dec, dec_text, same_text, succ_text, texts_of};
use vstd::prelude::*;

verus! {

// --------------------------------------------------------- partition types

/// The bytes of a GUID, from its textual grouping.
pub open spec fn fields(d1: u32, d2: u16, d3: u16, d4: Seq<u8>) -> Seq<u8> {
    bytes32(d1) + bytes16(d2) + bytes16(d3) + d4
}

/// A partition type this library can name.
#[derive(Clone, Copy, PartialEq, Eq, Structural, Debug)]
pub enum Kind {
    EfiSystem,
    LinuxFilesystem,
    LinuxSwap,
    LinuxRoot,
    LinuxVar,
    LinuxHome,
    MsBasicData,
    MsReserved,
    WindowsRecovery,
}

impl Kind {
    /// The type GUID.
    #[verifier::opaque]
    pub open spec fn bytes(self) -> Seq<u8> {
        match self {
            Kind::EfiSystem => fields(
                0xC12A_7328,
                0xF81F,
                0x11D2,
                seq![0xBAu8, 0x4Bu8, 0x00u8, 0xA0u8, 0xC9u8, 0x3Eu8, 0xC9u8, 0x3Bu8],
            ),
            Kind::LinuxFilesystem => fields(
                0x0FC6_3DAF,
                0x8483,
                0x4772,
                seq![0x8Eu8, 0x79u8, 0x3Du8, 0x69u8, 0xD8u8, 0x47u8, 0x7Du8, 0xE4u8],
            ),
            Kind::LinuxSwap => fields(
                0x0657_FD6D,
                0xA4AB,
                0x43C4,
                seq![0x84u8, 0xE5u8, 0x09u8, 0x33u8, 0xC8u8, 0x4Bu8, 0x4Fu8, 0x4Fu8],
            ),
            Kind::LinuxRoot => fields(
                0x4F68_BCE3,
                0xE8CD,
                0x4DB1,
                seq![0x96u8, 0xE7u8, 0xFBu8, 0xCAu8, 0xF9u8, 0x84u8, 0xB7u8, 0x09u8],
            ),
            Kind::LinuxVar => fields(
                0x4D21_B016,
                0xB534,
                0x45C2,
                seq![0xA9u8, 0xFBu8, 0x5Cu8, 0x16u8, 0xE0u8, 0x91u8, 0xFDu8, 0x2Du8],
            ),
            Kind::LinuxHome => fields(
                0x933A_C7E1,
                0x2EB4,
                0x4F13,
                seq![0xB8u8, 0x44u8, 0x0Eu8, 0x14u8, 0xE2u8, 0xAEu8, 0xF9u8, 0x15u8],
            ),
            Kind::MsBasicData => fields(
                0xEBD0_A0A2,
                0xB9E5,
                0x4433,
                seq![0x87u8, 0xC0u8, 0x68u8, 0xB6u8, 0xB7u8, 0x26u8, 0x99u8, 0xC7u8],
            ),
            Kind::MsReserved => fields(
                0xE3C9_E316,
                0x0B5C,
                0x4DB8,
                seq![0x81u8, 0x7Du8, 0xF9u8, 0x2Du8, 0xF0u8, 0x02u8, 0x15u8, 0xAEu8],
            ),
            Kind::WindowsRecovery => fields(
                0xDE94_BBA4,
                0x06D1,
                0x4D40,
                seq![0xA1u8, 0x6Au8, 0xBFu8, 0xD5u8, 0x01u8, 0x79u8, 0xD6u8, 0xACu8],
            ),
        }
    }

    /// The type GUID.
    pub fn guid(self) -> (r: Guid)
        ensures
            r.0@ == self.bytes(),
    {
        reveal(Kind::bytes);
        let r = match self {
            Kind::EfiSystem => Guid::from_fields(
                0xC12A_7328,
                0xF81F,
                0x11D2,
                [0xBA, 0x4B, 0x00, 0xA0, 0xC9, 0x3E, 0xC9, 0x3B],
            ),
            Kind::LinuxFilesystem => Guid::from_fields(
                0x0FC6_3DAF,
                0x8483,
                0x4772,
                [0x8E, 0x79, 0x3D, 0x69, 0xD8, 0x47, 0x7D, 0xE4],
            ),
            Kind::LinuxSwap => Guid::from_fields(
                0x0657_FD6D,
                0xA4AB,
                0x43C4,
                [0x84, 0xE5, 0x09, 0x33, 0xC8, 0x4B, 0x4F, 0x4F],
            ),
            Kind::LinuxRoot => Guid::from_fields(
                0x4F68_BCE3,
                0xE8CD,
                0x4DB1,
                [0x96, 0xE7, 0xFB, 0xCA, 0xF9, 0x84, 0xB7, 0x09],
            ),
            Kind::LinuxVar => Guid::from_fields(
                0x4D21_B016,
                0xB534,
                0x45C2,
                [0xA9, 0xFB, 0x5C, 0x16, 0xE0, 0x91, 0xFD, 0x2D],
            ),
            Kind::LinuxHome => Guid::from_fields(
                0x933A_C7E1,
                0x2EB4,
                0x4F13,
                [0xB8, 0x44, 0x0E, 0x14, 0xE2, 0xAE, 0xF9, 0x15],
            ),
            Kind::MsBasicData => Guid::from_fields(
                0xEBD0_A0A2,
                0xB9E5,
                0x4433,
                [0x87, 0xC0, 0x68, 0xB6, 0xB7, 0x26, 0x99, 0xC7],
            ),
            Kind::MsReserved => Guid::from_fields(
                0xE3C9_E316,
                0x0B5C,
                0x4DB8,
                [0x81, 0x7D, 0xF9, 0x2D, 0xF0, 0x02, 0x15, 0xAE],
            ),
            Kind::WindowsRecovery => Guid::from_fields(
                0xDE94_BBA4,
                0x06D1,
                0x4D40,
                [0xA1, 0x6A, 0xBF, 0xD5, 0x01, 0x79, 0xD6, 0xAC],
            ),
        };
        assert(r.0@ =~= self.bytes());
        r
    }

    /// What a report calls it.
    pub open spec fn label(self) -> Seq<char> {
        match self {
            Kind::EfiSystem => "EFI system partition"@,
            Kind::LinuxFilesystem => "Linux filesystem"@,
            Kind::LinuxSwap => "Linux swap"@,
            Kind::LinuxRoot => "Linux root (x86-64)"@,
            Kind::LinuxVar => "Linux /var"@,
            Kind::LinuxHome => "Linux /home"@,
            Kind::MsBasicData => "Microsoft basic data"@,
            Kind::MsReserved => "Microsoft reserved"@,
            Kind::WindowsRecovery => "Windows recovery"@,
        }
    }

    /// What a report calls it.
    pub fn name(self) -> (r: &'static str)
        ensures
            r@ == self.label(),
    {
        match self {
            Kind::EfiSystem => "EFI system partition",
            Kind::LinuxFilesystem => "Linux filesystem",
            Kind::LinuxSwap => "Linux swap",
            Kind::LinuxRoot => "Linux root (x86-64)",
            Kind::LinuxVar => "Linux /var",
            Kind::LinuxHome => "Linux /home",
            Kind::MsBasicData => "Microsoft basic data",
            Kind::MsReserved => "Microsoft reserved",
            Kind::WindowsRecovery => "Windows recovery",
        }
    }
}

/// Partition types that are unremarkable on a dual-booting Deck.
pub open spec fn known_kinds() -> Seq<Kind> {
    seq![
        Kind::EfiSystem,
        Kind::LinuxFilesystem,
        Kind::LinuxSwap,
        Kind::LinuxRoot,
        Kind::LinuxVar,
        Kind::LinuxHome,
        Kind::MsBasicData,
        Kind::MsReserved,
        Kind::WindowsRecovery,
    ]
}

/// The first of `kinds` whose type GUID is `guid`.
pub open spec fn find_kind(kinds: Seq<Kind>, guid: Seq<u8>) -> Option<Kind>
    decreases kinds.len(),
{
    if kinds.len() == 0 {
        None
    } else if kinds[0].bytes() == guid {
        Some(kinds[0])
    } else {
        find_kind(kinds.skip(1), guid)
    }
}

/// The known type a GUID stands for, if any.
pub open spec fn kind_of(guid: Guid) -> Option<Kind> {
    find_kind(known_kinds(), guid.0@)
}

/// What a report calls a partition type.
pub open spec fn type_label(guid: Guid) -> Seq<char> {
    match kind_of(guid) {
        Some(k) => k.label(),
        None => "unknown"@,
    }
}

/// Partition types that are unremarkable on a dual-booting Deck.
pub fn known_types() -> (r: Vec<Kind>)
    ensures
        r@ == known_kinds(),
{
    let r: Vec<Kind> = vec![
        Kind::EfiSystem,
        Kind::LinuxFilesystem,
        Kind::LinuxSwap,
        Kind::LinuxRoot,
        Kind::LinuxVar,
        Kind::LinuxHome,
        Kind::MsBasicData,
        Kind::MsReserved,
        Kind::WindowsRecovery,
    ];
    assert(r@ =~= known_kinds());
    r
}

fn lookup_kind(guid: &Guid) -> (r: Option<Kind>)
    ensures
        r == kind_of(*guid),
{
    let kinds = known_types();
    let mut i: usize = 0;
    assert(kinds@.skip(0) =~= kinds@);
    while i < kinds.len()
        invariant
            i <= kinds.len(),
            kinds@ == known_kinds(),
            find_kind(kinds@.skip(i as int), guid.0@) == kind_of(*guid),
        decreases kinds.len() - i,
    {
        let kind: Kind = kinds[i];
        let candidate = kind.guid();
        if candidate.same(guid) {
            return Some(kind);
        }
        assert(candidate.0@ != guid.0@) by {
            if candidate.0@ == guid.0@ {
                assert(candidate.0 =~= guid.0);
            }
        }
        assert(kinds@.skip(i as int).skip(1) =~= kinds@.skip(i + 1));
        i += 1;
    }
    None
}

pub fn describe_type(guid: &Guid) -> (r: &'static str)
    ensures
        r@ == type_label(*guid),
{
    match lookup_kind(guid) {
        Some(kind) => kind.name(),
        None => "unknown",
    }
}

// --------------------------------------------------------------- structure

#[derive(Clone, Copy, PartialEq, Eq, Structural, Debug)]
#[allow(inconsistent_fields)]
pub enum StructuralIssue {
    /// EndingLBA is before StartingLBA.
    InvertedRange { index: usize, start: u64, end: u64 },
    /// The partition falls outside the header's usable range.
    OutsideUsableRange { index: usize, start: u64, end: u64, first: u64, last: u64 },
    /// Two used partitions claim the same blocks.
    Overlap { a: usize, b: usize },
    /// No used entries at all.
    NoPartitions,
}

impl StructuralIssue {
    /// What the operator is told. Partitions are counted from one.
    pub open spec fn message(self) -> Seq<char> {
        match self {
            StructuralIssue::InvertedRange { index, start, end } => "partition "@ + dec(
                (index + 1) as nat,
            ) + " ends at "@ + dec(end as nat) + " before it starts at "@ + dec(start as nat),
            StructuralIssue::OutsideUsableRange { index, start, end, first, last } => "partition "@
                + dec((index + 1) as nat) + " spans "@ + dec(start as nat) + "..="@ + dec(
                end as nat,
            ) + ", outside the usable range "@ + dec(first as nat) + "..="@ + dec(last as nat),
            StructuralIssue::Overlap { a, b } => "partitions "@ + dec((a + 1) as nat) + " and "@
                + dec((b + 1) as nat) + " overlap"@,
            StructuralIssue::NoPartitions => "the table contains no partitions"@,
        }
    }

    /// What the operator is told.
    pub fn to_text(&self) -> (r: String)
        ensures
            r@ == self.message(),
    {
        match *self {
            StructuralIssue::InvertedRange { index, start, end } => {
                let mut s = "partition ".to_owned();
                s.push_str(succ_text(index as u64).as_str());
                s.push_str(" ends at ");
                s.push_str(dec_text(end).as_str());
                s.push_str(" before it starts at ");
                s.push_str(dec_text(start).as_str());
                s
            },
            StructuralIssue::OutsideUsableRange { index, start, end, first, last } => {
                let mut s = "partition ".to_owned();
                s.push_str(succ_text(index as u64).as_str());
                s.push_str(" spans ");
                s.push_str(dec_text(start).as_str());
                s.push_str("..=");
                s.push_str(dec_text(end).as_str());
                s.push_str(", outside the usable range ");
                s.push_str(dec_text(first).as_str());
                s.push_str("..=");
                s.push_str(dec_text(last).as_str());
                s
            },
            StructuralIssue::Overlap { a, b } => {
                let mut s = "partitions ".to_owned();
                s.push_str(succ_text(a as u64).as_str());
                s.push_str(" and ");
                s.push_str(succ_text(b as u64).as_str());
                s.push_str(" overlap");
                s
            },
            StructuralIssue::NoPartitions => "the table contains no partitions".to_owned(),
        }
    }
}

/// The partition's blocks are in order.
pub open spec fn ordered(e: PartitionEntry) -> bool {
    e.starting_lba <= e.ending_lba
}

/// What is wrong with the extent of entry `i` on its own.
pub open spec fn range_issue(
    entries: Seq<PartitionEntry>,
    i: int,
    first: u64,
    last: u64,
) -> Seq<StructuralIssue> {
    let e = entries[i];
    if !e.used() {
        Seq::empty()
    } else if !ordered(e) {
        seq![
            StructuralIssue::InvertedRange {
                index: i as usize,
                start: e.starting_lba,
                end: e.ending_lba,
            },
        ]
    } else if e.starting_lba < first || e.ending_lba > last {
        seq![
            StructuralIssue::OutsideUsableRange {
                index: i as usize,
                start: e.starting_lba,
                end: e.ending_lba,
                first,
                last,
            },
        ]
    } else {
        Seq::empty()
    }
}

/// What is wrong with the extents of the first `n` entries, in order.
pub open spec fn range_issues(
    entries: Seq<PartitionEntry>,
    n: nat,
    first: u64,
    last: u64,
) -> Seq<StructuralIssue>
    decreases n,
{
    if n == 0 {
        Seq::empty()
    } else {
        range_issues(entries, (n - 1) as nat, first, last) + range_issue(
            entries,
            n - 1,
            first,
            last,
        )
    }
}

/// Both entries are used, in order, and claim a block in common.
pub open spec fn collide(entries: Seq<PartitionEntry>, i: int, j: int) -> bool {
    &&& entries[i].used() && ordered(entries[i])
    &&& entries[j].used() && ordered(entries[j])
    &&& entries[i].meets(entries[j])
}

/// The collisions of entry `i` with those between it and `n`, in order.
pub open spec fn overlap_row(entries: Seq<PartitionEntry>, i: int, n: nat) -> Seq<StructuralIssue>
    decreases n,
{
    if n == 0 || n <= i + 1 {
        Seq::empty()
    } else {
        let rest = overlap_row(entries, i, (n - 1) as nat);
        if collide(entries, i, n - 1) {
            rest.push(StructuralIssue::Overlap { a: i as usize, b: (n - 1) as usize })
        } else {
            rest
        }
    }
}

/// The collisions of the first `m` entries with any later one, in order.
pub open spec fn overlap_issues(entries: Seq<PartitionEntry>, m: nat) -> Seq<StructuralIssue>
    decreases m,
{
    if m == 0 {
        Seq::empty()
    } else {
        overlap_issues(entries, (m - 1) as nat) + overlap_row(entries, m - 1, entries.len())
    }
}

/// At least one entry is used.
pub open spec fn any_used(entries: Seq<PartitionEntry>) -> bool {
    exists|i: int| 0 <= i < entries.len() && (#[trigger] entries[i]).used()
}

/// Everything incoherent about a table, in the order reported.
pub open spec fn structure_issues(entries: Seq<PartitionEntry>, first: u64, last: u64) -> Seq<
    StructuralIssue,
> {
    if !any_used(entries) {
        seq![StructuralIssue::NoPartitions]
    } else {
        range_issues(entries, entries.len(), first, last) + overlap_issues(entries, entries.len())
    }
}

fn has_used(entries: &[PartitionEntry]) -> (r: bool)
    ensures
        r == any_used(entries@),
{
    let mut i: usize = 0;
    while i < entries.len()
        invariant
            i <= entries.len(),
            forall|j: int| 0 <= j < i ==> !(#[trigger] entries@[j]).used(),
        decreases entries.len() - i,
    {
        if entries[i].is_used() {
            assert(entries@[i as int].used());
            return true;
        }
        i += 1;
    }
    false
}

/// Hard coherence checks. A non-empty result must block any write.
pub fn check_structure(entries: &[PartitionEntry], first_usable: u64, last_usable: u64) -> (r: Vec<
    StructuralIssue,
>)
    ensures
        r@ == structure_issues(entries@, first_usable, last_usable),
{
    let mut issues: Vec<StructuralIssue> = Vec::new();
    if !has_used(entries) {
        issues.push(StructuralIssue::NoPartitions);
        assert(issues@ =~= seq![StructuralIssue::NoPartitions]);
        return issues;
    }
    let mut i: usize = 0;
    while i < entries.len()
        invariant
            i <= entries.len(),
            issues@ == range_issues(entries@, i as nat, first_usable, last_usable),
        decreases entries.len() - i,
    {
        let ghost before = issues@;
        let e = entries[i];
        if e.is_used() {
            // An inverted range makes every other test meaningless.
            if e.ending_lba < e.starting_lba {
                issues.push(
                    StructuralIssue::InvertedRange {
                        index: i,
                        start: e.starting_lba,
                        end: e.ending_lba,
                    },
                );
            } else if e.starting_lba < first_usable || e.ending_lba > last_usable {
                issues.push(
                    StructuralIssue::OutsideUsableRange {
                        index: i,
                        start: e.starting_lba,
                        end: e.ending_lba,
                        first: first_usable,
                        last: last_usable,
                    },
                );
            }
        }
        assert(issues@ =~= before + range_issue(entries@, i as int, first_usable, last_usable));
        i += 1;
    }
    let ghost ranges = issues@;
    let mut a: usize = 0;
    assert(issues@ =~= ranges + overlap_issues(entries@, 0));
    while a < entries.len()
        invariant
            a <= entries.len(),
            issues@ == ranges + overlap_issues(entries@, a as nat),
        decreases entries.len() - a,
    {
        let ghost before = issues@;
        let first = entries[a];
        let mut b: usize = a + 1;
        assert(issues@ =~= before + overlap_row(entries@, a as int, b as nat));
        while b < entries.len()
            invariant
                a < b <= entries.len(),
                first == entries@[a as int],
                issues@ == before + overlap_row(entries@, a as int, b as nat),
            decreases entries.len() - b,
        {
            let ghost row = overlap_row(entries@, a as int, b as nat);
            let second = entries[b];
            if first.is_used() && first.starting_lba <= first.ending_lba && second.is_used()
                && second.starting_lba <= second.ending_lba && first.overlaps(&second) {
                issues.push(StructuralIssue::Overlap { a, b });
                assert(issues@ =~= before + row.push(StructuralIssue::Overlap { a, b }));
            }
            b += 1;
        }
        a += 1;
        assert(issues@ =~= ranges + overlap_issues(entries@, a as nat));
    }
    issues
}

proof fn range_issues_found(
    entries: Seq<PartitionEntry>,
    n: nat,
    first: u64,
    last: u64,
)
    requires
        n <= entries.len(),
    ensures
        range_issues(entries, n, first, last).len() == 0 <==> (forall|i: int|
            0 <= i < n ==> range_issue(entries, i, first, last).len() == 0),
    decreases n,
{
    if n > 0 {
        range_issues_found(entries, (n - 1) as nat, first, last);
        let tail = range_issue(entries, n - 1, first, last);
        if range_issues(entries, n, first, last).len() == 0 {
            assert(tail.len() == 0);
        }
    }
}

proof fn overlap_row_found(entries: Seq<PartitionEntry>, i: int, n: nat)
    requires
        0 <= i < entries.len(),
        n <= entries.len(),
    ensures
        overlap_row(entries, i, n).len() == 0 <==> (forall|j: int|
            i < j < n ==> !collide(entries, i, j)),
    decreases n,
{
    if n > i + 1 {
        overlap_row_found(entries, i, (n - 1) as nat);
    }
}

proof fn overlap_issues_found(entries: Seq<PartitionEntry>, m: nat)
    requires
        m <= entries.len(),
    ensures
        overlap_issues(entries, m).len() == 0 <==> (forall|i: int, j: int|
            0 <= i < m && i < j < entries.len() ==> !collide(entries, i, j)),
    decreases m,
{
    if m > 0 {
        overlap_issues_found(entries, (m - 1) as nat);
        overlap_row_found(entries, m - 1, entries.len());
    }
}

/// A table passes the structural checks exactly if it has a partition, every
/// partition lies within the usable range the right way round, and no two
/// partitions claim the same block.
pub proof fn structure_is_clean(entries: Seq<PartitionEntry>, first: u64, last: u64)
    ensures
        structure_issues(entries, first, last).len() == 0 <==> {
            &&& any_used(entries)
            &&& forall|i: int|
                0 <= i < entries.len() && (#[trigger] entries[i]).used() ==> first
                    <= entries[i].starting_lba <= entries[i].ending_lba <= last
            &&& forall|i: int, j: int|
                0 <= i < j < entries.len() && (#[trigger] entries[i]).used() && (
                #[trigger] entries[j]).used() ==> !entries[i].meets(entries[j])
        },
{
    range_issues_found(entries, entries.len(), first, last);
    overlap_issues_found(entries, entries.len());
    if structure_issues(entries, first, last).len() == 0 {
        assert forall|i: int| 0 <= i < entries.len() && (#[trigger] entries[i]).used() implies first
            <= entries[i].starting_lba <= entries[i].ending_lba <= last by {
            assert(range_issue(entries, i, first, last).len() == 0);
        }
        assert forall|i: int, j: int|
            0 <= i < j < entries.len() && (#[trigger] entries[i]).used() && (
            #[trigger] entries[j]).used() implies !entries[i].meets(entries[j]) by {
            assert(!collide(entries, i, j));
        }
    }
}

// ------------------------------------------------------------- recognition

/// The stock SteamOS 3.x A/B layout, by partition name.
pub open spec fn steamos_names() -> Seq<Seq<char>> {
    seq![
        "esp"@,
        "efi-A"@,
        "efi-B"@,
        "rootfs-A"@,
        "rootfs-B"@,
        "var-A"@,
        "var-B"@,
        "home"@,
    ]
}

/// The stock SteamOS 3.x A/B layout, by partition type.
pub open spec fn steamos_kinds() -> Seq<Kind> {
    seq![
        Kind::EfiSystem,
        Kind::MsBasicData,
        Kind::MsBasicData,
        Kind::LinuxRoot,
        Kind::LinuxRoot,
        Kind::LinuxVar,
        Kind::LinuxVar,
        Kind::LinuxHome,
    ]
}

/// How many partitions the stock layout has.
pub const STEAMOS_COUNT: usize = 8;

/// The stock SteamOS 3.x A/B layout, by partition name and type.
///
/// It is descriptive, not normative, and only feeds the confidence
/// estimate.
pub fn steamos_partitions() -> (r: Vec<(&'static str, Kind)>)
    ensures
        r@.len() == STEAMOS_COUNT,
        forall|k: int| 0 <= k < STEAMOS_COUNT ==> (#[trigger] r@[k]).0@ == steamos_names()[k],
        forall|k: int| 0 <= k < STEAMOS_COUNT ==> (#[trigger] r@[k]).1 == steamos_kinds()[k],
{
    vec![
        ("esp", Kind::EfiSystem),
        ("efi-A", Kind::MsBasicData),
        ("efi-B", Kind::MsBasicData),
        ("rootfs-A", Kind::LinuxRoot),
        ("rootfs-B", Kind::LinuxRoot),
        ("var-A", Kind::LinuxVar),
        ("var-B", Kind::LinuxVar),
        ("home", Kind::LinuxHome),
    ]
}

#[derive(Clone, Copy, PartialEq, Eq, Structural, Debug)]
pub enum Confidence {
    /// Matches the stock SteamOS layout closely.
    SteamOs,
    /// Some SteamOS partitions present, but not the full set.
    Partial,
    /// Nothing recognisable. Could be a stale secondary, or a disk this
    /// tool was never meant to touch.
    Unrecognized,
}

#[derive(Clone, Debug)]
pub struct Recognition {
    pub confidence: Confidence,
    pub matched: Vec<&'static str>,
    pub missing: Vec<&'static str>,
    /// Partitions with an expected name and another type: the name, the type
    /// it should have, the type it has.
    pub type_mismatches: Vec<(&'static str, Guid, Guid)>,
    /// Used partitions whose type GUID is not a known one.
    pub unknown_types: Vec<(usize, Guid, String)>,
    /// Critical SteamOS partitions that are absent.
    pub missing_critical: Vec<&'static str>,
}

/// A [`Recognition`] as a value.
pub struct RecognitionView {
    pub confidence: Confidence,
    pub matched: Seq<Seq<char>>,
    pub missing: Seq<Seq<char>>,
    pub type_mismatches: Seq<(Seq<char>, Seq<u8>, Seq<u8>)>,
    pub unknown_types: Seq<(usize, Seq<u8>, Seq<char>)>,
    pub missing_critical: Seq<Seq<char>>,
}

/// Mismatches as values.
pub open spec fn mismatches_of(v: Seq<(&str, Guid, Guid)>) -> Seq<(Seq<char>, Seq<u8>, Seq<u8>)> {
    Seq::new(v.len(), |i: int| (v[i].0@, v[i].1.0@, v[i].2.0@))
}

/// Unknown types as values.
pub open spec fn unknowns_of(v: Seq<(usize, Guid, String)>) -> Seq<(usize, Seq<u8>, Seq<char>)> {
    Seq::new(v.len(), |i: int| (v[i].0, v[i].1.0@, v[i].2@))
}

impl View for Recognition {
    type V = RecognitionView;

    open spec fn view(&self) -> RecognitionView {
        RecognitionView {
            confidence: self.confidence,
            matched: texts_of(self.matched@),
            missing: texts_of(self.missing@),
            type_mismatches: mismatches_of(self.type_mismatches@),
            unknown_types: unknowns_of(self.unknown_types@),
            missing_critical: texts_of(self.missing_critical@),
        }
    }
}

/// A used partition has this name and this type.
pub open spec fn present(entries: Seq<PartitionEntry>, k: int) -> bool {
    exists|i: int|
        0 <= i < entries.len() && (#[trigger] entries[i]).used() && entries[i].name_text()
            == steamos_names()[k] && entries[i].type_guid.0@ == steamos_kinds()[k].bytes()
}

/// Those of the first `n` stock partitions that are present (or absent).
pub open spec fn names_where(entries: Seq<PartitionEntry>, n: nat, there: bool) -> Seq<Seq<char>>
    decreases n,
{
    if n == 0 {
        Seq::empty()
    } else {
        let rest = names_where(entries, (n - 1) as nat, there);
        if present(entries, n - 1) == there {
            rest.push(steamos_names()[n - 1])
        } else {
            rest
        }
    }
}

/// The first used partition called `name` among those from `i` on.
pub open spec fn named_from(entries: Seq<PartitionEntry>, name: Seq<char>, i: int) -> Option<
    PartitionEntry,
>
    decreases entries.len() - i,
{
    if i < 0 || i >= entries.len() {
        None
    } else if entries[i].used() && entries[i].name_text() == name {
        Some(entries[i])
    } else {
        named_from(entries, name, i + 1)
    }
}

/// Those of the first `n` stock partitions that are present only under
/// another type.
pub open spec fn mistyped(entries: Seq<PartitionEntry>, n: nat) -> Seq<
    (Seq<char>, Seq<u8>, Seq<u8>),
>
    decreases n,
{
    if n == 0 {
        Seq::empty()
    } else {
        let rest = mistyped(entries, (n - 1) as nat);
        match named_from(entries, steamos_names()[n - 1], 0) {
            Some(e) if !present(entries, n - 1) => rest.push(
                (steamos_names()[n - 1], steamos_kinds()[n - 1].bytes(), e.type_guid.0@),
            ),
            _ => rest,
        }
    }
}

/// The used partitions among the first `n` whose type is not known.
pub open spec fn unknown(entries: Seq<PartitionEntry>, n: nat) -> Seq<(usize, Seq<u8>, Seq<char>)>
    decreases n,
{
    if n == 0 {
        Seq::empty()
    } else {
        let rest = unknown(entries, (n - 1) as nat);
        let e = entries[n - 1];
        if e.used() && kind_of(e.type_guid) is None {
            rest.push(((n - 1) as usize, e.type_guid.0@, e.name_text()))
        } else {
            rest
        }
    }
}

/// The partitions without which a table is almost certainly not a bootable
/// SteamOS one, and which are absent: the ESP and the first root filesystem.
pub open spec fn critical_absent(entries: Seq<PartitionEntry>) -> Seq<Seq<char>> {
    let esp: Seq<Seq<char>> = if present(entries, 0) {
        Seq::empty()
    } else {
        seq!["esp"@]
    };
    if present(entries, 3) {
        esp
    } else {
        esp.push("rootfs-A"@)
    }
}

/// How much a table looks like a SteamOS one.
pub open spec fn confidence_in(entries: Seq<PartitionEntry>) -> Confidence {
    if !present(entries, 0) || !present(entries, 3) {
        Confidence::Unrecognized
    } else if names_where(entries, STEAMOS_COUNT as nat, true).len() >= STEAMOS_COUNT - 2 {
        Confidence::SteamOs
    } else {
        Confidence::Partial
    }
}

/// Everything known about how much a table looks like a SteamOS one.
pub open spec fn recognition(entries: Seq<PartitionEntry>) -> RecognitionView {
    RecognitionView {
        confidence: confidence_in(entries),
        matched: names_where(entries, STEAMOS_COUNT as nat, true),
        missing: names_where(entries, STEAMOS_COUNT as nat, false),
        type_mismatches: mistyped(entries, STEAMOS_COUNT as nat),
        unknown_types: unknown(entries, entries.len()),
        missing_critical: critical_absent(entries),
    }
}

fn find_stock(entries: &[PartitionEntry], k: usize, name: &str, kind: Kind) -> (r: bool)
    requires
        k < STEAMOS_COUNT,
        name@ == steamos_names()[k as int],
        kind == steamos_kinds()[k as int],
    ensures
        r == present(entries@, k as int),
{
    let wanted = kind.guid();
    let mut i: usize = 0;
    while i < entries.len()
        invariant
            i <= entries.len(),
            name@ == steamos_names()[k as int],
            kind == steamos_kinds()[k as int],
            wanted.0@ == kind.bytes(),
            forall|j: int|
                0 <= j < i ==> !((#[trigger] entries@[j]).used() && entries@[j].name_text()
                    == steamos_names()[k as int] && entries@[j].type_guid.0@
                    == steamos_kinds()[k as int].bytes()),
        decreases entries.len() - i,
    {
        let e = entries[i];
        if e.is_used() && same_text(e.name_string().as_str(), name) && e.type_guid.same(&wanted) {
            assert(entries@[i as int].used());
            return true;
        }
        assert(e.type_guid.0@ == wanted.0@ ==> e.type_guid == wanted) by {
            if e.type_guid.0@ == wanted.0@ {
                assert(e.type_guid.0 =~= wanted.0);
            }
        }
        i += 1;
    }
    false
}

fn find_named(entries: &[PartitionEntry], name: &str) -> (r: Option<PartitionEntry>)
    ensures
        r == named_from(entries@, name@, 0),
{
    let mut i: usize = 0;
    while i < entries.len()
        invariant
            i <= entries.len(),
            named_from(entries@, name@, 0) == named_from(entries@, name@, i as int),
        decreases entries.len() - i,
    {
        let e = entries[i];
        if e.is_used() && same_text(e.name_string().as_str(), name) {
            return Some(e);
        }
        i += 1;
    }
    None
}

fn find_unknown(entries: &[PartitionEntry]) -> (r: Vec<(usize, Guid, String)>)
    ensures
        unknowns_of(r@) == unknown(entries@, entries@.len()),
{
    let mut out: Vec<(usize, Guid, String)> = Vec::new();
    let mut i: usize = 0;
    assert(unknowns_of(out@) =~= unknown(entries@, 0));
    while i < entries.len()
        invariant
            i <= entries.len(),
            unknowns_of(out@) == unknown(entries@, i as nat),
        decreases entries.len() - i,
    {
        let e = entries[i];
        if e.is_used() && lookup_kind(&e.type_guid).is_none() {
            let ghost before = unknowns_of(out@);
            out.push((i, e.type_guid, e.name_string()));
            assert(unknowns_of(out@) =~= before.push((i, e.type_guid.0@, e.name_text())));
        }
        i += 1;
    }
    out
}

pub fn recognize(entries: &[PartitionEntry]) -> (r: Recognition)
    ensures
        r@ == recognition(entries@),
{
    let stock = steamos_partitions();
    let mut matched: Vec<&'static str> = Vec::new();
    let mut missing: Vec<&'static str> = Vec::new();
    let mut type_mismatches: Vec<(&'static str, Guid, Guid)> = Vec::new();
    let mut missing_critical: Vec<&'static str> = Vec::new();
    let mut k: usize = 0;
    assert(texts_of(matched@) =~= names_where(entries@, 0, true));
    assert(texts_of(missing@) =~= names_where(entries@, 0, false));
    assert(mismatches_of(type_mismatches@) =~= mistyped(entries@, 0));
    assert(texts_of(missing_critical@) =~= Seq::<Seq<char>>::empty());
    while k < STEAMOS_COUNT
        invariant
            k <= STEAMOS_COUNT,
            stock@.len() == STEAMOS_COUNT,
            forall|j: int|
                0 <= j < STEAMOS_COUNT ==> (#[trigger] stock@[j]).0@ == steamos_names()[j],
            forall|j: int|
                0 <= j < STEAMOS_COUNT ==> (#[trigger] stock@[j]).1 == steamos_kinds()[j],
            texts_of(matched@) == names_where(entries@, k as nat, true),
            texts_of(missing@) == names_where(entries@, k as nat, false),
            mismatches_of(type_mismatches@) == mistyped(entries@, k as nat),
            k == 0 ==> texts_of(missing_critical@) == Seq::<Seq<char>>::empty(),
            0 < k <= 3 ==> texts_of(missing_critical@) == (if present(entries@, 0) {
                Seq::<Seq<char>>::empty()
            } else {
                seq!["esp"@]
            }),
            k > 3 ==> texts_of(missing_critical@) == critical_absent(entries@),
        decreases STEAMOS_COUNT - k,
    {
        let (name, kind): (&'static str, Kind) = stock[k];
        let ghost was_matched = texts_of(matched@);
        let ghost was_missing = texts_of(missing@);
        let ghost was_mistyped = mismatches_of(type_mismatches@);
        let ghost was_critical = texts_of(missing_critical@);
        if find_stock(entries, k, name, kind) {
            matched.push(name);
            assert(texts_of(matched@) =~= was_matched.push(name@));
        } else {
            missing.push(name);
            assert(texts_of(missing@) =~= was_missing.push(name@));
            if let Some(e) = find_named(entries, name) {
                let wanted = kind.guid();
                type_mismatches.push((name, wanted, e.type_guid));
                assert(mismatches_of(type_mismatches@) =~= was_mistyped.push(
                    (name@, wanted.0@, e.type_guid.0@),
                ));
            }
            if k == 0 || k == 3 {
                missing_critical.push(name);
                assert(texts_of(missing_critical@) =~= was_critical.push(name@));
                assert(k == 0 ==> texts_of(missing_critical@) =~= seq!["esp"@]);
            }
        }
        k += 1;
    }
    // Without an ESP and a rootfs this cannot be the table we want, however
    // many other names happen to line up.
    let confidence = if missing_critical.len() > 0 {
        Confidence::Unrecognized
    } else if matched.len() >= STEAMOS_COUNT - 2 {
        Confidence::SteamOs
    } else {
        Confidence::Partial
    };
    assert(texts_of(missing_critical@).len() == missing_critical@.len());
    assert(texts_of(matched@).len() == matched@.len());
    let unknown_types = find_unknown(entries);
    Recognition {
        confidence,
        matched,
        missing,
        type_mismatches,
        unknown_types,
        missing_critical,
    }
}

fn copied_names(v: &Vec<&'static str>) -> (r: Vec<&'static str>)
    ensures
        r@ == v@,
{
    let mut out: Vec<&'static str> = Vec::new();
    let mut i: usize = 0;
    while i < v.len()
        invariant
            i <= v.len(),
            out@ == v@.take(i as int),
        decreases v.len() - i,
    {
        out.push(v[i]);
        i += 1;
        assert(v@.take(i as int) =~= v@.take(i - 1).push(v@[i - 1]));
    }
    assert(v@.take(i as int) =~= v@);
    out
}

impl Recognition {
    /// An owned copy.
    pub(crate) fn copy(&self) -> (r: Self)
        ensures
            r@ == self@,
    {
        let mut type_mismatches: Vec<(&'static str, Guid, Guid)> = Vec::new();
        let mut i: usize = 0;
        while i < self.type_mismatches.len()
            invariant
                i <= self.type_mismatches.len(),
                type_mismatches@ == self.type_mismatches@.take(i as int),
            decreases self.type_mismatches.len() - i,
        {
            type_mismatches.push(self.type_mismatches[i]);
            i += 1;
            assert(self.type_mismatches@.take(i as int) =~= self.type_mismatches@.take(i - 1).push(
                self.type_mismatches@[i - 1],
            ));
        }
        assert(self.type_mismatches@.take(i as int) =~= self.type_mismatches@);
        let mut unknown_types: Vec<(usize, Guid, String)> = Vec::new();
        let mut j: usize = 0;
        while j < self.unknown_types.len()
            invariant
                j <= self.unknown_types.len(),
                unknowns_of(unknown_types@) == unknowns_of(self.unknown_types@.take(j as int)),
            decreases self.unknown_types.len() - j,
        {
            let ghost before = unknowns_of(unknown_types@);
            let at: usize = self.unknown_types[j].0;
            let guid: Guid = self.unknown_types[j].1;
            unknown_types.push((at, guid, self.unknown_types[j].2.clone()));
            j += 1;
            let e = Ghost(self.unknown_types@[j - 1]);
            assert(unknowns_of(unknown_types@) =~= before.push((e@.0, e@.1.0@, e@.2@)));
            assert(unknowns_of(self.unknown_types@.take(j as int)) =~= unknowns_of(
                self.unknown_types@.take(j - 1),
            ).push((e@.0, e@.1.0@, e@.2@)));
        }
        assert(self.unknown_types@.take(j as int) =~= self.unknown_types@);
        Recognition {
            confidence: self.confidence,
            matched: copied_names(&self.matched),
            missing: copied_names(&self.missing),
            type_mismatches,
            unknown_types,
            missing_critical: copied_names(&self.missing_critical),
        }
    }
}

/// Every stock partition is either matched or missing, and no table is
/// recognised without an ESP and a root filesystem.
pub proof fn every_stock_partition_is_accounted_for(entries: Seq<PartitionEntry>)
    ensures
        recognition(entries).matched.len() + recognition(entries).missing.len() == STEAMOS_COUNT,
        recognition(entries).confidence == Confidence::Unrecognized <==> recognition(
            entries,
        ).missing_critical.len() > 0,
{
    names_where_count(entries, STEAMOS_COUNT as nat);
}

proof fn names_where_count(entries: Seq<PartitionEntry>, n: nat)
    ensures
        names_where(entries, n, true).len() + names_where(entries, n, false).len() == n,
    decreases n,
{
    if n > 0 {
        names_where_count(entries, (n - 1) as nat);
    }
}

/// The ESP and the first root filesystem are looked for by name and by type,
/// each on its own: a table that lacks either one is not recognised, whatever
/// else it lists, and what it lacks is named.
pub proof fn a_table_without_its_esp_or_root_is_not_recognised(entries: Seq<PartitionEntry>)
    ensures
        ({
            let r = recognition(entries);
            let esp = exists|i: int|
                0 <= i < entries.len() && (#[trigger] entries[i]).used() && entries[i].name_text()
                    == "esp"@ && entries[i].type_guid.0@ == Kind::EfiSystem.bytes();
            let root = exists|i: int|
                0 <= i < entries.len() && (#[trigger] entries[i]).used() && entries[i].name_text()
                    == "rootfs-A"@ && entries[i].type_guid.0@ == Kind::LinuxRoot.bytes();
            &&& r.missing_critical.contains("esp"@) == !esp
            &&& r.missing_critical.contains("rootfs-A"@) == !root
            &&& forall|name: Seq<char>| #[trigger]
                r.missing_critical.contains(name) ==> name == "esp"@ || name == "rootfs-A"@
            &&& !esp ==> r.confidence == Confidence::Unrecognized
            &&& !root ==> r.confidence == Confidence::Unrecognized
            &&& esp && root ==> r.confidence != Confidence::Unrecognized
            &&& r.confidence == Confidence::SteamOs <==> esp && root && r.missing.len() <= 2
        }),
{
    let r = recognition(entries);
    let missing = r.missing_critical;
    reveal_strlit("esp");
    reveal_strlit("rootfs-A");
    assert("esp"@.len() != "rootfs-A"@.len());
    assert(steamos_names()[0] == "esp"@ && steamos_kinds()[0] == Kind::EfiSystem);
    assert(steamos_names()[3] == "rootfs-A"@ && steamos_kinds()[3] == Kind::LinuxRoot);
    names_where_count(entries, STEAMOS_COUNT as nat);
    if !present(entries, 0) {
        assert(missing[0] == "esp"@);
    }
    if !present(entries, 3) {
        assert(missing[missing.len() - 1] == "rootfs-A"@);
    }
}

/// The stock partitions that are there, and those that are not: a used
/// partition counts only under its own name and type together.
pub proof fn a_stock_partition_is_matched_by_name_and_type(entries: Seq<PartitionEntry>, k: int)
    requires
        0 <= k < 8,
    ensures
        ({
            let r = recognition(entries);
            let name = seq![
                "esp"@,
                "efi-A"@,
                "efi-B"@,
                "rootfs-A"@,
                "rootfs-B"@,
                "var-A"@,
                "var-B"@,
                "home"@,
            ][k];
            let kind = seq![
                Kind::EfiSystem,
                Kind::MsBasicData,
                Kind::MsBasicData,
                Kind::LinuxRoot,
                Kind::LinuxRoot,
                Kind::LinuxVar,
                Kind::LinuxVar,
                Kind::LinuxHome,
            ][k];
            let there = exists|i: int|
                0 <= i < entries.len() && (#[trigger] entries[i]).used() && entries[i].name_text()
                    == name && entries[i].type_guid.0@ == kind.bytes();
            &&& r.matched.contains(name) == there
            &&& r.missing.contains(name) == !there
        }),
{
    let name = steamos_names()[k];
    stock_names_differ();
    names_where_holds(entries, 8, true, k);
    names_where_holds(entries, 8, false, k);
}

proof fn stock_names_differ()
    ensures
        forall|i: int, j: int|
            0 <= i < j < 8 ==> #[trigger] steamos_names()[i] != #[trigger] steamos_names()[j],
{
    reveal_strlit("esp");
    reveal_strlit("efi-A");
    reveal_strlit("efi-B");
    reveal_strlit("rootfs-A");
    reveal_strlit("rootfs-B");
    reveal_strlit("var-A");
    reveal_strlit("var-B");
    reveal_strlit("home");
    assert forall|i: int, j: int| 0 <= i < j < 8 implies #[trigger] steamos_names()[i]
        != #[trigger] steamos_names()[j] by {
        let (a, b) = (steamos_names()[i], steamos_names()[j]);
        assert(a.len() != b.len() || a[4] != b[4] || a[0] != b[0] || a[a.len() - 1] != b[b.len()
            - 1]);
    }
}

proof fn names_where_holds(entries: Seq<PartitionEntry>, n: nat, there: bool, k: int)
    requires
        0 <= k < 8,
        n <= 8,
        forall|i: int, j: int|
            0 <= i < j < 8 ==> #[trigger] steamos_names()[i] != #[trigger] steamos_names()[j],
    ensures
        names_where(entries, n, there).contains(steamos_names()[k]) == (k < n && present(entries, k)
            == there),
    decreases n,
{
    let name = steamos_names()[k];
    if n > 0 {
        let rest = names_where(entries, (n - 1) as nat, there);
        let all = names_where(entries, n, there);
        names_where_holds(entries, (n - 1) as nat, there, k);
        if rest.contains(name) {
            let i = choose|i: int| 0 <= i < rest.len() && rest[i] == name;
            assert(all[i] == name);
        }
        if all.contains(name) && !rest.contains(name) {
            let i = choose|i: int| 0 <= i < all.len() && all[i] == name;
            if i < rest.len() {
                assert(rest[i] == name);
            }
        }
        if k == n - 1 && present(entries, k) == there {
            assert(all[rest.len() as int] == name);
        }
    }
}


/// Everything incoherent about a table is named, each partition by its slot,
/// and nothing is named that is not: a partition that ends before it starts,
/// one that lies outside the usable range, and two that claim the same block.
pub proof fn every_incoherence_is_named(
    entries: Seq<PartitionEntry>,
    first: u64,
    last: u64,
    i: usize,
    j: usize,
)
    requires
        exists|k: int| 0 <= k < entries.len() && (#[trigger] entries[k]).used(),
        i < j < entries.len() <= usize::MAX,
    ensures
        ({
            let issues = structure_issues(entries, first, last);
            let a = entries[i as int];
            let b = entries[j as int];
            &&& issues.contains(
                StructuralIssue::InvertedRange {
                    index: i,
                    start: a.starting_lba,
                    end: a.ending_lba,
                },
            ) == (a.used() && a.ending_lba < a.starting_lba)
            &&& issues.contains(
                StructuralIssue::OutsideUsableRange {
                    index: i,
                    start: a.starting_lba,
                    end: a.ending_lba,
                    first,
                    last,
                },
            ) == (a.used() && a.starting_lba <= a.ending_lba && !(first <= a.starting_lba
                && a.ending_lba <= last))
            &&& issues.contains(StructuralIssue::Overlap { a: i, b: j }) == (a.used() && b.used()
                && a.starting_lba <= a.ending_lba && b.starting_lba <= b.ending_lba && !(a.ending_lba
                < b.starting_lba || b.ending_lba < a.starting_lba))
            &&& !issues.contains(StructuralIssue::NoPartitions)
        }),
{
    let issues = structure_issues(entries, first, last);
    let ranges = range_issues(entries, entries.len(), first, last);
    let overlaps = overlap_issues(entries, entries.len());
    let a = entries[i as int];
    let x = StructuralIssue::InvertedRange { index: i, start: a.starting_lba, end: a.ending_lba };
    let y = StructuralIssue::OutsideUsableRange {
        index: i,
        start: a.starting_lba,
        end: a.ending_lba,
        first,
        last,
    };
    let z = StructuralIssue::Overlap { a: i, b: j };
    assert(any_used(entries));
    issues_of_both(ranges, overlaps, x);
    issues_of_both(ranges, overlaps, y);
    issues_of_both(ranges, overlaps, z);
    issues_of_both(ranges, overlaps, StructuralIssue::NoPartitions);
    range_issues_hold(entries, entries.len(), first, last, x);
    range_issues_hold(entries, entries.len(), first, last, y);
    range_issues_hold(entries, entries.len(), first, last, z);
    range_issues_hold(entries, entries.len(), first, last, StructuralIssue::NoPartitions);
    overlap_issues_hold(entries, entries.len(), x);
    overlap_issues_hold(entries, entries.len(), y);
    overlap_issues_hold(entries, entries.len(), z);
    overlap_issues_hold(entries, entries.len(), StructuralIssue::NoPartitions);
}

proof fn issues_of_both(a: Seq<StructuralIssue>, b: Seq<StructuralIssue>, x: StructuralIssue)
    ensures
        (a + b).contains(x) <==> a.contains(x) || b.contains(x),
{
    let all = a + b;
    if a.contains(x) {
        let i = choose|i: int| 0 <= i < a.len() && a[i] == x;
        assert(all[i] == x);
    }
    if b.contains(x) {
        let i = choose|i: int| 0 <= i < b.len() && b[i] == x;
        assert(all[a.len() + i] == x);
    }
    if all.contains(x) {
        let i = choose|i: int| 0 <= i < all.len() && all[i] == x;
        if i < a.len() {
            assert(a[i] == x);
        } else {
            assert(b[i - a.len()] == x);
        }
    }
}

/// What is named of the extent of one entry on its own.
spec fn range_named(
    entries: Seq<PartitionEntry>,
    n: nat,
    first: u64,
    last: u64,
    x: StructuralIssue,
) -> bool {
    match x {
        StructuralIssue::InvertedRange { index, start, end } => index < n
            && entries[index as int].used() && start == entries[index as int].starting_lba && end
            == entries[index as int].ending_lba && end < start,
        StructuralIssue::OutsideUsableRange { index, start, end, first: f, last: l } => index < n
            && entries[index as int].used() && start == entries[index as int].starting_lba && end
            == entries[index as int].ending_lba && f == first && l == last && start <= end && !(first
            <= start && end <= last),
        _ => false,
    }
}

proof fn range_issues_hold(
    entries: Seq<PartitionEntry>,
    n: nat,
    first: u64,
    last: u64,
    x: StructuralIssue,
)
    requires
        n <= entries.len() <= usize::MAX,
    ensures
        range_issues(entries, n, first, last).contains(x) <==> range_named(
            entries,
            n,
            first,
            last,
            x,
        ),
    decreases n,
{
    if n > 0 {
        range_issues_hold(entries, (n - 1) as nat, first, last, x);
        let one = range_issue(entries, n - 1, first, last);
        issues_of_both(range_issues(entries, (n - 1) as nat, first, last), one, x);
        if one.len() > 0 {
            assert(one.contains(one[0]));
        }
    }
}

/// What is named of two entries together.
spec fn overlap_named(entries: Seq<PartitionEntry>, m: nat, x: StructuralIssue) -> bool {
    x matches StructuralIssue::Overlap { a, b } && a < m && a < b < entries.len() && collide(
        entries,
        a as int,
        b as int,
    )
}

proof fn overlap_row_holds(entries: Seq<PartitionEntry>, i: int, n: nat, x: StructuralIssue)
    requires
        0 <= i < entries.len() <= usize::MAX,
        n <= entries.len(),
    ensures
        overlap_row(entries, i, n).contains(x) <==> (x matches StructuralIssue::Overlap { a, b } && a
            == i && i < b < n && collide(entries, i, b as int)),
    decreases n,
{
    if n > i + 1 {
        overlap_row_holds(entries, i, (n - 1) as nat, x);
        let rest = overlap_row(entries, i, (n - 1) as nat);
        if collide(entries, i, n - 1) {
            let one = StructuralIssue::Overlap { a: i as usize, b: (n - 1) as usize };
            assert(rest.push(one) =~= rest + seq![one]);
            issues_of_both(rest, seq![one], x);
            assert(seq![one][0] == one);
        }
    }
}

proof fn overlap_issues_hold(entries: Seq<PartitionEntry>, m: nat, x: StructuralIssue)
    requires
        m <= entries.len() <= usize::MAX,
    ensures
        overlap_issues(entries, m).contains(x) <==> overlap_named(entries, m, x),
    decreases m,
{
    if m > 0 {
        overlap_issues_hold(entries, (m - 1) as nat, x);
        overlap_row_holds(entries, m - 1, entries.len(), x);
        issues_of_both(
            overlap_issues(entries, (m - 1) as nat),
            overlap_row(entries, m - 1, entries.len()),
            x,
        );
    }
}

/// A partition type goes by its GUID: it is known exactly if its bytes are
/// those of a known type, and then it is called what that type is called.
pub proof fn a_type_is_known_by_its_guid(guid: Guid, kind: Kind)
    ensures
        kind_of(guid) matches Some(k) ==> guid.0@ == k.bytes() && type_label(guid) == k.label(),
        guid.0@ == kind.bytes() ==> kind_of(guid) is Some,
        kind_of(guid) is None ==> type_label(guid) == "unknown"@,
{
    let all = known_kinds();
    a_kind_is_found(all, guid.0@);
    assert(all.contains(kind)) by {
        assert(all[0] == Kind::EfiSystem);
        assert(all[1] == Kind::LinuxFilesystem);
        assert(all[2] == Kind::LinuxSwap);
        assert(all[3] == Kind::LinuxRoot);
        assert(all[4] == Kind::LinuxVar);
        assert(all[5] == Kind::LinuxHome);
        assert(all[6] == Kind::MsBasicData);
        assert(all[7] == Kind::MsReserved);
        assert(all[8] == Kind::WindowsRecovery);
    }
}

proof fn a_kind_is_found(kinds: Seq<Kind>, guid: Seq<u8>)
    ensures
        find_kind(kinds, guid) matches Some(k) ==> k.bytes() == guid,
        find_kind(kinds, guid) is None ==> forall|k: Kind| #[trigger]
            kinds.contains(k) ==> k.bytes() != guid,
    decreases kinds.len(),
{
    if kinds.len() > 0 {
        a_kind_is_found(kinds.skip(1), guid);
        if find_kind(kinds, guid) is None {
            assert forall|k: Kind| #[trigger] kinds.contains(k) implies k.bytes() != guid by {
                let i = choose|i: int| 0 <= i < kinds.len() && kinds[i] == k;
                if i > 0 {
                    assert(kinds.skip(1)[i - 1] == k);
                    assert(kinds.skip(1).contains(k));
                }
            }
        }
    }
}

/// The types are the ones other tools write, byte for byte as they stand on
/// disk.
pub proof fn types_are_stored_as_other_tools_store_them(kind: Kind)
    ensures
        kind.bytes() == match kind {
            // C12A7328-F81F-11D2-BA4B-00A0C93EC93B
            Kind::EfiSystem => seq![
                0x28u8, 0x73u8, 0x2Au8, 0xC1u8, 0x1Fu8, 0xF8u8, 0xD2u8, 0x11u8,
                0xBAu8, 0x4Bu8, 0x00u8, 0xA0u8, 0xC9u8, 0x3Eu8, 0xC9u8, 0x3Bu8,
            ],
            // 0FC63DAF-8483-4772-8E79-3D69D8477DE4
            Kind::LinuxFilesystem => seq![
                0xAFu8, 0x3Du8, 0xC6u8, 0x0Fu8, 0x83u8, 0x84u8, 0x72u8, 0x47u8,
                0x8Eu8, 0x79u8, 0x3Du8, 0x69u8, 0xD8u8, 0x47u8, 0x7Du8, 0xE4u8,
            ],
            // 0657FD6D-A4AB-43C4-84E5-0933C84B4F4F
            Kind::LinuxSwap => seq![
                0x6Du8, 0xFDu8, 0x57u8, 0x06u8, 0xABu8, 0xA4u8, 0xC4u8, 0x43u8,
                0x84u8, 0xE5u8, 0x09u8, 0x33u8, 0xC8u8, 0x4Bu8, 0x4Fu8, 0x4Fu8,
            ],
            // 4F68BCE3-E8CD-4DB1-96E7-FBCAF984B709
            Kind::LinuxRoot => seq![
                0xE3u8, 0xBCu8, 0x68u8, 0x4Fu8, 0xCDu8, 0xE8u8, 0xB1u8, 0x4Du8,
                0x96u8, 0xE7u8, 0xFBu8, 0xCAu8, 0xF9u8, 0x84u8, 0xB7u8, 0x09u8,
            ],
            // 4D21B016-B534-45C2-A9FB-5C16E091FD2D
            Kind::LinuxVar => seq![
                0x16u8, 0xB0u8, 0x21u8, 0x4Du8, 0x34u8, 0xB5u8, 0xC2u8, 0x45u8,
                0xA9u8, 0xFBu8, 0x5Cu8, 0x16u8, 0xE0u8, 0x91u8, 0xFDu8, 0x2Du8,
            ],
            // 933AC7E1-2EB4-4F13-B844-0E14E2AEF915
            Kind::LinuxHome => seq![
                0xE1u8, 0xC7u8, 0x3Au8, 0x93u8, 0xB4u8, 0x2Eu8, 0x13u8, 0x4Fu8,
                0xB8u8, 0x44u8, 0x0Eu8, 0x14u8, 0xE2u8, 0xAEu8, 0xF9u8, 0x15u8,
            ],
            // EBD0A0A2-B9E5-4433-87C0-68B6B72699C7
            Kind::MsBasicData => seq![
                0xA2u8, 0xA0u8, 0xD0u8, 0xEBu8, 0xE5u8, 0xB9u8, 0x33u8, 0x44u8,
                0x87u8, 0xC0u8, 0x68u8, 0xB6u8, 0xB7u8, 0x26u8, 0x99u8, 0xC7u8,
            ],
            // E3C9E316-0B5C-4DB8-817D-F92DF00215AE
            Kind::MsReserved => seq![
                0x16u8, 0xE3u8, 0xC9u8, 0xE3u8, 0x5Cu8, 0x0Bu8, 0xB8u8, 0x4Du8,
                0x81u8, 0x7Du8, 0xF9u8, 0x2Du8, 0xF0u8, 0x02u8, 0x15u8, 0xAEu8,
            ],
            // DE94BBA4-06D1-4D40-A16A-BFD50179D6AC
            Kind::WindowsRecovery => seq![
                0xA4u8, 0xBBu8, 0x94u8, 0xDEu8, 0xD1u8, 0x06u8, 0x40u8, 0x4Du8,
                0xA1u8, 0x6Au8, 0xBFu8, 0xD5u8, 0x01u8, 0x79u8, 0xD6u8, 0xACu8,
            ],
        },
{
    reveal(Kind::bytes);
    assert(kind.bytes() =~= match kind {
        Kind::EfiSystem => seq![
            0x28u8, 0x73u8, 0x2Au8, 0xC1u8, 0x1Fu8, 0xF8u8, 0xD2u8, 0x11u8,
            0xBAu8, 0x4Bu8, 0x00u8, 0xA0u8, 0xC9u8, 0x3Eu8, 0xC9u8, 0x3Bu8,
        ],
        Kind::LinuxFilesystem => seq![
            0xAFu8, 0x3Du8, 0xC6u8, 0x0Fu8, 0x83u8, 0x84u8, 0x72u8, 0x47u8,
            0x8Eu8, 0x79u8, 0x3Du8, 0x69u8, 0xD8u8, 0x47u8, 0x7Du8, 0xE4u8,
        ],
        Kind::LinuxSwap => seq![
            0x6Du8, 0xFDu8, 0x57u8, 0x06u8, 0xABu8, 0xA4u8, 0xC4u8, 0x43u8,
            0x84u8, 0xE5u8, 0x09u8, 0x33u8, 0xC8u8, 0x4Bu8, 0x4Fu8, 0x4Fu8,
        ],
        Kind::LinuxRoot => seq![
            0xE3u8, 0xBCu8, 0x68u8, 0x4Fu8, 0xCDu8, 0xE8u8, 0xB1u8, 0x4Du8,
            0x96u8, 0xE7u8, 0xFBu8, 0xCAu8, 0xF9u8, 0x84u8, 0xB7u8, 0x09u8,
        ],
        Kind::LinuxVar => seq![
            0x16u8, 0xB0u8, 0x21u8, 0x4Du8, 0x34u8, 0xB5u8, 0xC2u8, 0x45u8,
            0xA9u8, 0xFBu8, 0x5Cu8, 0x16u8, 0xE0u8, 0x91u8, 0xFDu8, 0x2Du8,
        ],
        Kind::LinuxHome => seq![
            0xE1u8, 0xC7u8, 0x3Au8, 0x93u8, 0xB4u8, 0x2Eu8, 0x13u8, 0x4Fu8,
            0xB8u8, 0x44u8, 0x0Eu8, 0x14u8, 0xE2u8, 0xAEu8, 0xF9u8, 0x15u8,
        ],
        Kind::MsBasicData => seq![
            0xA2u8, 0xA0u8, 0xD0u8, 0xEBu8, 0xE5u8, 0xB9u8, 0x33u8, 0x44u8,
            0x87u8, 0xC0u8, 0x68u8, 0xB6u8, 0xB7u8, 0x26u8, 0x99u8, 0xC7u8,
        ],
        Kind::MsReserved => seq![
            0x16u8, 0xE3u8, 0xC9u8, 0xE3u8, 0x5Cu8, 0x0Bu8, 0xB8u8, 0x4Du8,
            0x81u8, 0x7Du8, 0xF9u8, 0x2Du8, 0xF0u8, 0x02u8, 0x15u8, 0xAEu8,
        ],
        Kind::WindowsRecovery => seq![
            0xA4u8, 0xBBu8, 0x94u8, 0xDEu8, 0xD1u8, 0x06u8, 0x40u8, 0x4Du8,
            0xA1u8, 0x6Au8, 0xBFu8, 0xD5u8, 0x01u8, 0x79u8, 0xD6u8, 0xACu8,
        ],
    });
}


/// A partition is listed as of unknown type, by its slot, its type and its
/// name, exactly if it is used and its type is that of no known kind.
pub proof fn every_unknown_type_is_listed(
    entries: Seq<PartitionEntry>,
    n: nat,
    x: (usize, Seq<u8>, Seq<char>),
)
    requires
        n <= entries.len() <= usize::MAX,
    ensures
        unknown(entries, n).contains(x) <==> x.0 < n && entries[x.0 as int].used() && x.1
            == entries[x.0 as int].type_guid.0@ && x.2 == entries[x.0 as int].name_text() && forall|
            k: Kind,
        |
            #[trigger] k.bytes() != x.1,
        n == entries.len() ==> recognition(entries).unknown_types == unknown(entries, n),
    decreases n,
{
    if n > 0 {
        every_unknown_type_is_listed(entries, (n - 1) as nat, x);
        let rest = unknown(entries, (n - 1) as nat);
        let all = unknown(entries, n);
        let e = entries[n - 1];
        let y = ((n - 1) as usize, e.type_guid.0@, e.name_text());
        assert((kind_of(e.type_guid) is None) == forall|k: Kind|
            #[trigger] k.bytes() != e.type_guid.0@) by {
            if kind_of(e.type_guid) is None {
                assert forall|k: Kind| #[trigger] k.bytes() != e.type_guid.0@ by {
                    a_type_is_known_by_its_guid(e.type_guid, k);
                }
            } else {
                let k = kind_of(e.type_guid)->0;
                a_type_is_known_by_its_guid(e.type_guid, k);
                assert(k.bytes() == e.type_guid.0@);
            }
        }
        if rest.contains(x) {
            let i = choose|i: int| 0 <= i < rest.len() && rest[i] == x;
            assert(all[i] == x);
        }
        if e.used() && kind_of(e.type_guid) is None {
            assert(all[rest.len() as int] == y);
            if all.contains(x) && !rest.contains(x) {
                let i = choose|i: int| 0 <= i < all.len() && all[i] == x;
                assert(i == rest.len());
            }
        }
    }
}

/// A stock partition that is there only under another type is listed with the
/// type it should have and the type it has, and no other is.
pub proof fn every_wrong_type_is_listed(
    entries: Seq<PartitionEntry>,
    n: nat,
    x: (Seq<char>, Seq<u8>, Seq<u8>),
    k: int,
)
    requires
        0 <= k < n <= 8,
        x.0 == steamos_names()[k],
    ensures
        mistyped(entries, n).contains(x) ==> x.1 == steamos_kinds()[k].bytes() && x.2 != x.1
            && exists|i: int|
            0 <= i < entries.len() && (#[trigger] entries[i]).used() && entries[i].name_text()
                == x.0 && entries[i].type_guid.0@ == x.2,
        (exists|i: int|
            0 <= i < entries.len() && (#[trigger] entries[i]).used() && entries[i].name_text()
                == x.0) && !(exists|i: int|
            0 <= i < entries.len() && (#[trigger] entries[i]).used() && entries[i].name_text()
                == x.0 && entries[i].type_guid.0@ == steamos_kinds()[k].bytes()) ==> exists|j: int|
            0 <= j < mistyped(entries, n).len() && (#[trigger] mistyped(entries, n)[j]).0 == x.0,
        recognition(entries).type_mismatches == mistyped(entries, 8),
    decreases n,
{
    let rest = mistyped(entries, (n - 1) as nat);
    let all = mistyped(entries, n);
    let name = steamos_names()[n - 1];
    stock_names_differ();
    first_of_its_name(entries, name, 0);
    if k < n - 1 {
        every_wrong_type_is_listed(entries, (n - 1) as nat, x, k);
        assert(name != x.0);
        if all.contains(x) {
            let i = choose|i: int| 0 <= i < all.len() && all[i] == x;
            assert(i < rest.len());
            assert(rest[i] == x);
        }
        if exists|j: int| 0 <= j < rest.len() && (#[trigger] rest[j]).0 == x.0 {
            let j = choose|j: int| 0 <= j < rest.len() && (#[trigger] rest[j]).0 == x.0;
            assert(all[j].0 == x.0);
        }
    } else {
        only_earlier_names(entries, (n - 1) as nat);
        if all.contains(x) {
            let i = choose|i: int| 0 <= i < all.len() && all[i] == x;
            if i < rest.len() {
                assert(rest[i].0 == x.0);
            }
        }
        if all.len() > rest.len() {
            assert(all[rest.len() as int].0 == x.0);
        }
    }
}

proof fn first_of_its_name(entries: Seq<PartitionEntry>, name: Seq<char>, from: int)
    requires
        0 <= from <= entries.len(),
    ensures
        named_from(entries, name, from) is None ==> forall|i: int|
            from <= i < entries.len() ==> !((#[trigger] entries[i]).used()
                && entries[i].name_text() == name),
        named_from(entries, name, from) matches Some(e) ==> exists|i: int|
            from <= i < entries.len() && #[trigger] entries[i] == e && e.used() && e.name_text()
                == name,
    decreases entries.len() - from,
{
    if from < entries.len() {
        if entries[from].used() && entries[from].name_text() == name {
            assert(entries[from] == entries[from]);
        } else {
            first_of_its_name(entries, name, from + 1);
        }
    }
}

proof fn only_earlier_names(entries: Seq<PartitionEntry>, n: nat)
    requires
        n <= 8,
    ensures
        forall|j: int|
            0 <= j < mistyped(entries, n).len() ==> exists|k: int|
                0 <= k < n && (#[trigger] mistyped(entries, n)[j]).0 == #[trigger] steamos_names()[k],
    decreases n,
{
    if n > 0 {
        only_earlier_names(entries, (n - 1) as nat);
        let rest = mistyped(entries, (n - 1) as nat);
        let all = mistyped(entries, n);
        assert forall|j: int| 0 <= j < all.len() implies exists|k: int|
            0 <= k < n && (#[trigger] all[j]).0 == #[trigger] steamos_names()[k] by {
            if j < rest.len() {
                assert(all[j] == rest[j]);
                let k = choose|k: int|
                    0 <= k < n - 1 && rest[j].0 == #[trigger] steamos_names()[k];
                assert(all[j].0 == steamos_names()[k]);
            } else {
                assert(all[j].0 == steamos_names()[n - 1]);
            }
        }
    }
}

} // verus!
