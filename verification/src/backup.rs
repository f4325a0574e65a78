//! Saving both GPTs to a file and putting them back.
//!
//! This is deliberately not "dd the first 34 sectors". An archive records
//! the geometry it was taken from and the health of the table at the time,
//! and stores each structure as a separate chunk with a role. That buys
//! three things a raw dump does not:
//!
//! * restore can refuse a disk whose geometry does not match, instead of
//!   writing a table describing a different device;
//! * the operator is told, before authorising, whether the table they are
//!   about to restore was healthy when it was captured: restoring a
//!   corrupt snapshot is a real way to make things worse;
//! * the write order can put entry arrays on the medium before the headers
//!   that point at them, exactly as [`crate::repair`] does.
//!
//! The format is little-endian throughout and ends with a CRC32 over
//! everything before it, so a truncated or damaged file is rejected rather
//! than half-restored.

use crate::bytes::{
    a_flipped_bit_is_a_change, bytes16, bytes32, bytes32_of_le32, bytes64, copied, le16, le16_reads_bytes16, le32, le32_reads_bytes32, le64,
    le64_reads_bytes64, put_bytes, put_u16, put_u32, put_u64, rd_u16, rd_u32, rd_u64, same_bytes,
};
use crate::crc::{crc32_of, damage_changes_the_checksum, Crc32};
use crate::disk::{range_read, read_range, reply_of, BlockDevice, IoError, Op};
use crate::entry::{array_holds, parse_array, PartitionEntry};
use crate::guid::{guid_text, Guid};
use crate::header::{word, word_text, GptHeader, HEADER_MIN_SIZE};
use crate::mbr::MbrStatus;
use crate::meta::{
    decode_meta, durable, encode_meta, meta_bytes, metadata_round_trips, pairs_of, section_pairs,
    Pair, MAX_PAIRS,
};
use crate::names;
use crate::repair::{
    push_step, sound, steps_of, Analysis, PlanView, RepairPlan, Step, StepView, TableView, Verdict,
};
use crate::report::{disk_capacity, extent_size, extent_text, human, human_size};
use crate::style::{
    add_line, add_lines, blank_line, dim, key, line, no_lines, shown, styled, title, Line, LineView, Style,
};
use crate::text::{
    capped_succ_mul, content_of, dec, dec_text, pad_left, pad_left_text, pad_right, pad_right_text, same_text,
    strings_of, succ_text,
};
use vstd::prelude::*;

verus! {

/// Bumped to 2 when the metadata section was added. Version 1 files stay
/// readable: a snapshot is worthless if a later build refuses it.
pub const VERSION: u32 = 2;

/// The oldest layout [`decode`] understands.
pub const MIN_VERSION: u32 = 1;

/// Size of the fixed part, before the chunks: magic, version, block size,
/// last block, disk GUID, timestamp, health, chunk count.
pub const FIXED_LEN: usize = 52;

/// Bytes preceding each chunk's payload: role, lba, blocks, byte length.
pub const CHUNK_HEAD_LEN: usize = 28;

/// Snapshots are named `gpt.001` up to this number.
pub const MAX_SEQUENCE: u32 = 999;

/// `EFIGPTBK`.
pub open spec fn magic() -> Seq<u8> {
    seq![0x45u8, 0x46u8, 0x49u8, 0x47u8, 0x50u8, 0x54u8, 0x42u8, 0x4Bu8]
}

fn magic_bytes() -> (r: [u8; 8])
    ensures
        r@ == magic(),
{
    let r: [u8; 8] = [0x45, 0x46, 0x49, 0x47, 0x50, 0x54, 0x42, 0x4B];
    assert(r@ =~= magic());
    r
}

// --------------------------------------------------------------------- time

/// A wall-clock reading, passed in by the caller.
///
/// There is no clock here; under firmware this comes from
/// `EFI_RUNTIME_SERVICES.GetTime`, and in tests it is whatever the test
/// says it is.
#[derive(Clone, Copy, PartialEq, Eq, Structural, Debug, Default)]
pub struct Timestamp {
    pub year: u16,
    pub month: u8,
    pub day: u8,
    pub hour: u8,
    pub minute: u8,
    pub second: u8,
}

/// At least two digits.
pub open spec fn two(n: u8) -> Seq<char> {
    pad_left(dec(n as nat), 2, '0')
}

fn two_text(n: u8) -> (r: String)
    ensures
        r@ == two(n),
{
    pad_left_text(dec_text(n as u64).as_str(), 2, '0')
}

impl Timestamp {
    /// `2026-08-01 12:13:14`.
    pub open spec fn text(self) -> Seq<char> {
        pad_left(dec(self.year as nat), 4, '0') + "-"@ + two(self.month) + "-"@ + two(self.day)
            + " "@ + two(self.hour) + ":"@ + two(self.minute) + ":"@ + two(self.second)
    }

    /// `2026-08-01 12:13:14`.
    pub fn to_text(&self) -> (r: String)
        ensures
            r@ == self.text(),
    {
        let mut s = pad_left_text(dec_text(self.year as u64).as_str(), 4, '0');
        s.push_str("-");
        s.push_str(two_text(self.month).as_str());
        s.push_str("-");
        s.push_str(two_text(self.day).as_str());
        s.push_str(" ");
        s.push_str(two_text(self.hour).as_str());
        s.push_str(":");
        s.push_str(two_text(self.minute).as_str());
        s.push_str(":");
        s.push_str(two_text(self.second).as_str());
        s
    }

    /// Seven bytes.
    pub open spec fn bytes(self) -> Seq<u8> {
        bytes16(self.year) + seq![self.month, self.day, self.hour, self.minute, self.second]
    }

    pub(crate) fn put(&self, out: &mut Vec<u8>)
        ensures
            final(out)@ == old(out)@ + self.bytes(),
    {
        put_u16(out, self.year);
        out.push(self.month);
        out.push(self.day);
        out.push(self.hour);
        out.push(self.minute);
        out.push(self.second);
        assert(out@ =~= old(out)@ + self.bytes());
    }

    /// The reading stored at `off`.
    pub open spec fn at(b: Seq<u8>, off: int) -> Timestamp {
        Timestamp {
            year: le16(b, off),
            month: b[off + 2],
            day: b[off + 3],
            hour: b[off + 4],
            minute: b[off + 5],
            second: b[off + 6],
        }
    }

    pub(crate) fn read(b: &[u8], off: usize) -> (r: Timestamp)
        requires
            off + 7 <= b@.len(),
        ensures
            r == Timestamp::at(b@, off as int),
    {
        assert(b.len() == b@.len());
        Timestamp {
            year: rd_u16(b, off),
            month: b[off + 2],
            day: b[off + 3],
            hour: b[off + 4],
            minute: b[off + 5],
            second: b[off + 6],
        }
    }

    /// A reading that was written reads back as it was.
    pub proof fn reads_back(self, b: Seq<u8>, off: int)
        requires
            0 <= off,
            off + 7 <= b.len(),
            b.subrange(off, off + 7) == self.bytes(),
        ensures
            Timestamp::at(b, off) == self,
    {
        let s = b.subrange(off, off + 7);
        assert(b.subrange(off, off + 2) =~= s.subrange(0, 2));
        assert(s.subrange(0, 2) =~= bytes16(self.year));
        le16_reads_bytes16(b, off, self.year);
        assert(s[2] == self.month && s[3] == self.day && s[4] == self.hour && s[5] == self.minute
            && s[6] == self.second);
    }
}

// -------------------------------------------------------------- the archive

/// What a chunk is, which is what decides where it goes back and when.
#[derive(Clone, Copy, PartialEq, Eq, Structural, Debug)]
pub enum Role {
    Mbr,
    PrimaryEntries,
    PrimaryHeader,
    BackupEntries,
    BackupHeader,
}

impl Role {
    /// How the role is stored.
    pub open spec fn number(self) -> u32 {
        match self {
            Role::Mbr => 1,
            Role::PrimaryEntries => 2,
            Role::PrimaryHeader => 3,
            Role::BackupEntries => 4,
            Role::BackupHeader => 5,
        }
    }

    /// The role stored as `code`.
    pub open spec fn numbered(code: u32) -> Option<Role> {
        if code == 1 {
            Some(Role::Mbr)
        } else if code == 2 {
            Some(Role::PrimaryEntries)
        } else if code == 3 {
            Some(Role::PrimaryHeader)
        } else if code == 4 {
            Some(Role::BackupEntries)
        } else if code == 5 {
            Some(Role::BackupHeader)
        } else {
            None
        }
    }

    fn code(self) -> (r: u32)
        ensures
            r == self.number(),
    {
        match self {
            Role::Mbr => 1,
            Role::PrimaryEntries => 2,
            Role::PrimaryHeader => 3,
            Role::BackupEntries => 4,
            Role::BackupHeader => 5,
        }
    }

    fn from_code(code: u32) -> (r: Option<Role>)
        ensures
            r == Role::numbered(code),
    {
        match code {
            1 => Some(Role::Mbr),
            2 => Some(Role::PrimaryEntries),
            3 => Some(Role::PrimaryHeader),
            4 => Some(Role::BackupEntries),
            5 => Some(Role::BackupHeader),
            _ => None,
        }
    }

    /// What the operator calls it.
    pub open spec fn label(self) -> Seq<char> {
        match self {
            Role::Mbr => "protective MBR"@,
            Role::PrimaryEntries => "primary partition entry array"@,
            Role::PrimaryHeader => "primary GPT header"@,
            Role::BackupEntries => "backup partition entry array"@,
            Role::BackupHeader => "backup GPT header"@,
        }
    }

    pub fn describe(self) -> (r: &'static str)
        ensures
            r@ == self.label(),
    {
        match self {
            Role::Mbr => "protective MBR",
            Role::PrimaryEntries => "primary partition entry array",
            Role::PrimaryHeader => "primary GPT header",
            Role::BackupEntries => "backup partition entry array",
            Role::BackupHeader => "backup GPT header",
        }
    }
}

#[derive(Clone, Debug)]
pub struct Chunk {
    pub role: Role,
    pub lba: u64,
    pub data: Vec<u8>,
}

/// A [`Chunk`] as a value.
pub struct ChunkView {
    pub role: Role,
    pub lba: u64,
    pub data: Seq<u8>,
}

impl View for Chunk {
    type V = ChunkView;

    open spec fn view(&self) -> ChunkView {
        ChunkView { role: self.role, lba: self.lba, data: self.data@ }
    }
}

/// Chunks as values.
pub open spec fn chunks_of(v: Seq<Chunk>) -> Seq<ChunkView> {
    Seq::new(v.len(), |i: int| v[i]@)
}

/// How many whole blocks a payload takes.
pub open spec fn whole_blocks(len: nat, block_size: u32) -> u64 {
    if block_size == 0 {
        0
    } else {
        (len / block_size as nat) as u64
    }
}

impl Chunk {
    pub fn blocks(&self, block_size: u32) -> (r: u64)
        ensures
            r == whole_blocks(self.data@.len(), block_size),
    {
        if block_size == 0 {
            return 0;
        }
        self.data.len() as u64 / block_size as u64
    }
}

/// How the table looked when the snapshot was taken.
///
/// Stored so restore can say so. A backup of a broken table is still worth
/// keeping, since it is evidence, but putting it back is not a repair.
#[derive(Clone, Copy, PartialEq, Eq, Structural, Debug)]
pub enum Health {
    Healthy,
    MbrOnly,
    PrimaryCorrupt,
    BackupCorrupt,
    BothCorrupt,
    Other,
}

impl Health {
    /// How the state is stored.
    pub open spec fn number(self) -> u8 {
        match self {
            Health::Healthy => 0,
            Health::MbrOnly => 1,
            Health::PrimaryCorrupt => 2,
            Health::BackupCorrupt => 3,
            Health::BothCorrupt => 4,
            Health::Other => 5,
        }
    }

    /// The state stored as `code`.
    pub open spec fn numbered(code: u8) -> Health {
        if code == 0 {
            Health::Healthy
        } else if code == 1 {
            Health::MbrOnly
        } else if code == 2 {
            Health::PrimaryCorrupt
        } else if code == 3 {
            Health::BackupCorrupt
        } else if code == 4 {
            Health::BothCorrupt
        } else {
            Health::Other
        }
    }

    /// The state a verdict speaks of.
    pub open spec fn of(verdict: Verdict) -> Health {
        match verdict {
            Verdict::Healthy => Health::Healthy,
            Verdict::MbrOnly => Health::MbrOnly,
            Verdict::MainRepairable | Verdict::RefusedImplausibleSecondary =>
                Health::PrimaryCorrupt,
            Verdict::SecondaryDegraded => Health::BackupCorrupt,
            Verdict::Unrecoverable => Health::BothCorrupt,
            Verdict::RefusedHybridMbr => Health::Other,
        }
    }

    fn code(self) -> (r: u8)
        ensures
            r == self.number(),
    {
        match self {
            Health::Healthy => 0,
            Health::MbrOnly => 1,
            Health::PrimaryCorrupt => 2,
            Health::BackupCorrupt => 3,
            Health::BothCorrupt => 4,
            Health::Other => 5,
        }
    }

    fn from_code(code: u8) -> (r: Health)
        ensures
            r == Health::numbered(code),
    {
        match code {
            0 => Health::Healthy,
            1 => Health::MbrOnly,
            2 => Health::PrimaryCorrupt,
            3 => Health::BackupCorrupt,
            4 => Health::BothCorrupt,
            _ => Health::Other,
        }
    }

    fn from_verdict(verdict: Verdict) -> (r: Health)
        ensures
            r == Health::of(verdict),
    {
        match verdict {
            Verdict::Healthy => Health::Healthy,
            Verdict::MbrOnly => Health::MbrOnly,
            Verdict::MainRepairable | Verdict::RefusedImplausibleSecondary => {
                Health::PrimaryCorrupt
            },
            Verdict::SecondaryDegraded => Health::BackupCorrupt,
            Verdict::Unrecoverable => Health::BothCorrupt,
            Verdict::RefusedHybridMbr => Health::Other,
        }
    }

    pub fn is_clean(self) -> (r: bool)
        ensures
            r == (self == Health::Healthy),
    {
        self == Health::Healthy
    }

    /// Both tables were sound when the snapshot was taken.
    pub open spec fn sound(self) -> bool {
        self == Health::Healthy || self == Health::MbrOnly
    }

    /// Both GPTs parsed and verified at capture time.
    ///
    /// Distinct from [`Health::is_clean`] because a wrong protective MBR
    /// is saved as found and does come back on restore, but it is not a
    /// reason to warn someone off restoring their partition table.
    pub fn tables_were_sound(self) -> (r: bool)
        ensures
            r == self.sound(),
    {
        match self {
            Health::Healthy | Health::MbrOnly => true,
            _ => false,
        }
    }

    /// How serious the state is.
    pub open spec fn severity(self) -> Style {
        match self {
            Health::Healthy => Style::Good,
            Health::MbrOnly => Style::Warn,
            _ => Style::Bad,
        }
    }

    pub fn style(self) -> (r: Style)
        ensures
            r == self.severity(),
    {
        match self {
            Health::Healthy => Style::Good,
            Health::MbrOnly => Style::Warn,
            _ => Style::Bad,
        }
    }

    /// What the operator is told.
    pub open spec fn message(self) -> Seq<char> {
        match self {
            Health::Healthy => "healthy"@,
            Health::MbrOnly => "tables healthy, protective MBR wrong"@,
            Health::PrimaryCorrupt => "PRIMARY WAS CORRUPT"@,
            Health::BackupCorrupt => "BACKUP WAS CORRUPT"@,
            Health::BothCorrupt => "BOTH TABLES WERE CORRUPT"@,
            Health::Other => "unusual (hybrid MBR or similar)"@,
        }
    }

    pub fn describe(self) -> (r: &'static str)
        ensures
            r@ == self.message(),
    {
        match self {
            Health::Healthy => "healthy",
            Health::MbrOnly => "tables healthy, protective MBR wrong",
            Health::PrimaryCorrupt => "PRIMARY WAS CORRUPT",
            Health::BackupCorrupt => "BACKUP WAS CORRUPT",
            Health::BothCorrupt => "BOTH TABLES WERE CORRUPT",
            Health::Other => "unusual (hybrid MBR or similar)",
        }
    }
}

#[derive(Clone, Debug)]
pub struct Archive {
    /// Layout the file was written in. New archives are [`VERSION`].
    pub version: u32,
    pub block_size: u32,
    /// `Media->LastBlock` of the disk this came from.
    pub last_block: u64,
    /// Disk GUID at capture time, or zero if no header could be read.
    pub disk_guid: Guid,
    pub time: Timestamp,
    pub health: Health,
    pub chunks: Vec<Chunk>,
    /// Free-form provenance: which build wrote this, on what firmware,
    /// from which device. Empty for version 1 files.
    pub meta: Vec<(String, String)>,
}

/// An [`Archive`] as a value.
pub struct ArchiveView {
    pub version: u32,
    pub block_size: u32,
    pub last_block: u64,
    pub disk_guid: Seq<u8>,
    pub time: Timestamp,
    pub health: Health,
    pub chunks: Seq<ChunkView>,
    pub meta: Seq<Pair>,
}

impl View for Archive {
    type V = ArchiveView;

    open spec fn view(&self) -> ArchiveView {
        ArchiveView {
            version: self.version,
            block_size: self.block_size,
            last_block: self.last_block,
            disk_guid: self.disk_guid.0@,
            time: self.time,
            health: self.health,
            chunks: chunks_of(self.chunks@),
            meta: pairs_of(self.meta@),
        }
    }
}

/// The first chunk with this role, from `i` on.
pub open spec fn chunk_from(chunks: Seq<ChunkView>, role: Role, i: int) -> Option<ChunkView>
    decreases chunks.len() - i,
{
    if i < 0 || i >= chunks.len() {
        None
    } else if chunks[i].role == role {
        Some(chunks[i])
    } else {
        chunk_from(chunks, role, i + 1)
    }
}

/// The value under this key, from `i` on.
pub open spec fn meta_from(meta: Seq<Pair>, key: Seq<char>, i: int) -> Option<Seq<char>>
    decreases meta.len() - i,
{
    if i < 0 || i >= meta.len() {
        None
    } else if meta[i].0 == key {
        Some(meta[i].1)
    } else {
        meta_from(meta, key, i + 1)
    }
}

pub(crate) fn find_meta<'a>(meta: &'a Vec<(String, String)>, key: &str) -> (r: Option<&'a str>)
    ensures
        match r {
            Some(v) => meta_from(pairs_of(meta@), key@, 0) == Some(v@),
            None => meta_from(pairs_of(meta@), key@, 0) is None,
        },
{
    let mut i: usize = 0;
    while i < meta.len()
        invariant
            i <= meta.len(),
            meta_from(pairs_of(meta@), key@, 0) == meta_from(pairs_of(meta@), key@, i as int),
        decreases meta.len() - i,
    {
        if same_text(meta[i].0.as_str(), key) {
            return Some(meta[i].1.as_str());
        }
        i += 1;
    }
    None
}

impl ArchiveView {
    /// The first chunk with this role.
    pub open spec fn chunk(self, role: Role) -> Option<ChunkView> {
        chunk_from(self.chunks, role, 0)
    }

    /// A header is stored under this role.
    pub open spec fn has_header(self, role: Role) -> bool {
        self.chunk(role) matches Some(c) && c.data.len() >= HEADER_MIN_SIZE
    }

    /// The chunk whose header describes the partitions: the primary's, or
    /// the backup's where that one is missing or too short.
    pub open spec fn header_chunk(self) -> Option<ChunkView> {
        if self.has_header(Role::PrimaryHeader) {
            self.chunk(Role::PrimaryHeader)
        } else if self.has_header(Role::BackupHeader) {
            self.chunk(Role::BackupHeader)
        } else {
            None
        }
    }

    /// The chunk that holds the partitions: the primary entry array, or the
    /// backup copy.
    pub open spec fn array_chunk(self) -> Option<ChunkView> {
        match self.chunk(Role::PrimaryEntries) {
            Some(c) => Some(c),
            None => self.chunk(Role::BackupEntries),
        }
    }

    /// `entries` are the partitions this snapshot would restore.
    pub open spec fn restores(self, entries: Seq<PartitionEntry>) -> bool {
        match (self.header_chunk(), self.array_chunk()) {
            (Some(h), Some(array)) => exists|header: GptHeader|
                #[trigger] header.parsed_from(h.data) && array_holds(
                    entries,
                    array.data,
                    header.number_of_partition_entries,
                    header.size_of_partition_entry,
                ),
            _ => entries.len() == 0,
        }
    }

    /// The partitions this snapshot would restore.
    pub open spec fn entry_list(self) -> Seq<PartitionEntry> {
        choose|entries: Seq<PartitionEntry>| self.restores(entries)
    }

    /// A snapshot restores one list of partitions.
    pub proof fn restores_one_list(self, a: Seq<PartitionEntry>, b: Seq<PartitionEntry>)
        requires
            self.restores(a),
            self.restores(b),
        ensures
            a == b,
    {
        if self.header_chunk() is Some && self.array_chunk() is Some {
            let h = self.header_chunk()->0.data;
            let array = self.array_chunk()->0.data;
            let x = choose|header: GptHeader|
                #[trigger] header.parsed_from(h) && array_holds(
                    a,
                    array,
                    header.number_of_partition_entries,
                    header.size_of_partition_entry,
                );
            let y = choose|header: GptHeader|
                #[trigger] header.parsed_from(h) && array_holds(
                    b,
                    array,
                    header.number_of_partition_entries,
                    header.size_of_partition_entry,
                );
            x.parsed_from_is_unique(y, h);
            assert forall|i: int| 0 <= i < a.len() implies a[i] == b[i] by {
                let stride = x.size_of_partition_entry;
                let slot = array.subrange(i * stride, (i + 1) * stride);
                assert(a[i].parsed_from(slot));
                assert(b[i].parsed_from(slot));
                a[i].parsed_from_is_unique(b[i], slot);
            }
        }
        assert(a =~= b);
    }
}

impl Archive {
    pub fn chunk(&self, role: Role) -> (r: Option<&Chunk>)
        ensures
            match r {
                Some(c) => self@.chunk(role) == Some(c@),
                None => self@.chunk(role) is None,
            },
    {
        let mut i: usize = 0;
        while i < self.chunks.len()
            invariant
                i <= self.chunks.len(),
                self@.chunk(role) == chunk_from(self@.chunks, role, i as int),
            decreases self.chunks.len() - i,
        {
            if self.chunks[i].role == role {
                return Some(&self.chunks[i]);
            }
            i += 1;
        }
        None
    }

    pub fn capacity(&self) -> (r: u64)
        ensures
            r == disk_capacity(self.last_block, self.block_size),
    {
        capped_succ_mul(self.last_block, self.block_size as u64)
    }

    fn header_in(&self, role: Role) -> (r: Option<GptHeader>)
        ensures
            r is Some == self@.has_header(role),
            r matches Some(h) ==> h.parsed_from(self@.chunk(role)->0.data),
    {
        match self.chunk(role) {
            Some(c) => GptHeader::parse(c.data.as_slice()),
            None => None,
        }
    }

    /// The header the restore would install at LBA 1, if it can be parsed.
    pub(crate) fn primary_header(&self) -> (r: Option<GptHeader>)
        ensures
            r is Some == self@.has_header(Role::PrimaryHeader),
            r matches Some(h) ==> h.parsed_from(self@.chunk(Role::PrimaryHeader)->0.data),
    {
        self.header_in(Role::PrimaryHeader)
    }

    pub fn meta_get(&self, key: &str) -> (r: Option<&str>)
        ensures
            match r {
                Some(v) => meta_from(self@.meta, key@, 0) == Some(v@),
                None => meta_from(self@.meta, key@, 0) is None,
            },
    {
        find_meta(&self.meta, key)
    }

    /// The partitions this snapshot would restore.
    ///
    /// Parsed from the primary entry array, falling back to the backup
    /// copy: the two are identical on a healthy disk, and when they are not
    /// the surviving one is still worth showing.
    pub fn entries(&self) -> (r: Vec<PartitionEntry>)
        ensures
            self@.restores(r@),
            r@ == self@.entry_list(),
    {
        let r = self.parsed_entries();
        proof {
            self@.restores_one_list(r@, self@.entry_list());
        }
        r
    }

    fn parsed_entries(&self) -> (r: Vec<PartitionEntry>)
        ensures
            self@.restores(r@),
    {
        let header = match self.primary_header() {
            Some(h) => h,
            None => match self.header_in(Role::BackupHeader) {
                Some(h) => h,
                None => return Vec::new(),
            },
        };
        assert(header.parsed_from(self@.header_chunk()->0.data));
        let array = match self.chunk(Role::PrimaryEntries) {
            Some(c) => c,
            None => match self.chunk(Role::BackupEntries) {
                Some(c) => c,
                None => return Vec::new(),
            },
        };
        parse_array(
            array.data.as_slice(),
            header.number_of_partition_entries,
            header.size_of_partition_entry,
        )
    }
}

// ------------------------------------------------------------------ capture

/// Conventional entry array: 128 entries of 128 bytes.
pub open spec fn conventional_blocks(block_size: u32) -> u64 {
    if block_size == 0 {
        0
    } else {
        ((16384 + block_size - 1) / block_size as int) as u64
    }
}

/// The number of blocks a conventional 16 KiB entry array occupies.
pub fn default_array_blocks(block_size: u32) -> (r: u64)
    ensures
        r == conventional_blocks(block_size),
{
    if block_size == 0 {
        return 0;
    }
    (16384 + (block_size as u64 - 1)) / block_size as u64
}

/// Where the entry array of a table is looked for: where its header says, or
/// at the conventional place if the header could not be read.
pub open spec fn array_place(
    table: Result<TableView, IoError>,
    block_size: u32,
    conventional: u64,
) -> (u64, u64) {
    match table {
        Ok(t) => (
            t.header.partition_entry_lba,
            match t.header.array_blocks(block_size) {
                Some(blocks) => blocks,
                None => conventional_blocks(block_size),
            },
        ),
        Err(_) => (conventional, conventional_blocks(block_size)),
    }
}

fn find_array(table: &Result<TableView, IoError>, block_size: u32, conventional: u64) -> (r: (
    u64,
    u64,
))
    ensures
        r == array_place(*table, block_size, conventional),
{
    match table {
        Ok(t) => {
            let blocks: u64 = match t.header.entry_array_blocks(block_size) {
                Some(blocks) => blocks,
                None => default_array_blocks(block_size),
            };
            (t.header.partition_entry_lba, blocks)
        },
        Err(_) => (conventional, default_array_blocks(block_size)),
    }
}

/// Where the backup entry array conventionally lies: just below its header.
pub open spec fn below_last(last_block: u64, block_size: u32) -> u64 {
    let n = conventional_blocks(block_size);
    if last_block >= n {
        (last_block - n) as u64
    } else {
        0
    }
}

/// The disk GUID worth recording, zero if neither table is sound.
pub open spec fn recorded_guid(a: Analysis) -> Seq<u8> {
    if sound(a.main) {
        a.main->Ok_0.header.disk_guid.0@
    } else if sound(a.secondary) {
        a.secondary->Ok_0.header.disk_guid.0@
    } else {
        crate::bytes::zeros(16)
    }
}

/// The header block of a table as it was analysed, or as it was read now
/// where the analysis has none.
pub open spec fn header_block(table: Result<TableView, IoError>, now: Seq<u8>) -> Seq<u8> {
    match table {
        Ok(t) => t.raw@,
        Err(_) => now,
    }
}

/// `chunks` with the entry array that was read, if it could be.
pub open spec fn with_array(
    chunks: Seq<ChunkView>,
    role: Role,
    lba: u64,
    reply: Result<Seq<u8>, IoError>,
) -> Seq<ChunkView> {
    match reply {
        Ok(data) => chunks.push(ChunkView { role, lba, data }),
        Err(_) => chunks,
    }
}

/// The snapshot that four answers make: to reading the main entry array, the
/// main header block, the secondary entry array and the secondary header
/// block. The header blocks only matter where the analysis has none.
pub open spec fn captured(
    a: Analysis,
    time: Timestamp,
    meta: Seq<Pair>,
    main_array: Result<Seq<u8>, IoError>,
    main_header: Seq<u8>,
    secondary_array: Result<Seq<u8>, IoError>,
    secondary_header: Seq<u8>,
) -> ArchiveView {
    let main_at = array_place(a.main, a.block_size, 2).0;
    let secondary_at = array_place(
        a.secondary,
        a.block_size,
        below_last(a.last_block, a.block_size),
    ).0;
    let mbr = seq![ChunkView { role: Role::Mbr, lba: 0, data: a.mbr_raw@ }];
    let main = with_array(mbr, Role::PrimaryEntries, main_at, main_array).push(
        ChunkView {
            role: Role::PrimaryHeader,
            lba: 1,
            data: header_block(a.main, main_header),
        },
    );
    let all = with_array(main, Role::BackupEntries, secondary_at, secondary_array).push(
        ChunkView {
            role: Role::BackupHeader,
            lba: a.last_block,
            data: header_block(a.secondary, secondary_header),
        },
    );
    ArchiveView {
        version: VERSION,
        block_size: a.block_size,
        last_block: a.last_block,
        disk_guid: recorded_guid(a),
        time,
        health: Health::of(a.verdict),
        chunks: all,
        meta,
    }
}

/// Put a snapshot together from what was read.
pub fn assemble(
    analysis: &Analysis,
    time: Timestamp,
    meta: Vec<(String, String)>,
    main_array: Result<Vec<u8>, IoError>,
    main_header: Vec<u8>,
    secondary_array: Result<Vec<u8>, IoError>,
    secondary_header: Vec<u8>,
) -> (r: Archive)
    ensures
        r@ == captured(
            *analysis,
            time,
            pairs_of(meta@),
            reply_of(main_array),
            main_header@,
            reply_of(secondary_array),
            secondary_header@,
        ),
{
    let block_size: u32 = analysis.block_size;
    let last_block: u64 = analysis.last_block;
    let fallback: u64 = default_array_blocks(block_size);
    let mut chunks: Vec<Chunk> = Vec::new();
    let mbr_raw = copied(analysis.mbr_raw.as_slice(), 0, analysis.mbr_raw.len());
    assert(mbr_raw@ =~= analysis.mbr_raw@);
    assert(chunks_of(chunks@) =~= Seq::<ChunkView>::empty());
    push_chunk(&mut chunks, Chunk { role: Role::Mbr, lba: 0, data: mbr_raw });
    // Where a header is intact its own pointers are followed.
    let main_at: u64 = find_array(&analysis.main, block_size, 2).0;
    if let Ok(data) = main_array {
        push_chunk(&mut chunks, Chunk { role: Role::PrimaryEntries, lba: main_at, data });
    }
    let data = match &analysis.main {
        Ok(t) => {
            let raw = copied(t.raw.as_slice(), 0, t.raw.len());
            assert(raw@ =~= t.raw@);
            raw
        },
        Err(_) => main_header,
    };
    push_chunk(&mut chunks, Chunk { role: Role::PrimaryHeader, lba: 1, data });
    let secondary_at: u64 = find_array(
        &analysis.secondary,
        block_size,
        last_block.saturating_sub(fallback),
    ).0;
    if let Ok(data) = secondary_array {
        push_chunk(&mut chunks, Chunk { role: Role::BackupEntries, lba: secondary_at, data });
    }
    let data = match &analysis.secondary {
        Ok(t) => {
            let raw = copied(t.raw.as_slice(), 0, t.raw.len());
            assert(raw@ =~= t.raw@);
            raw
        },
        Err(_) => secondary_header,
    };
    push_chunk(&mut chunks, Chunk { role: Role::BackupHeader, lba: last_block, data });
    let mut disk_guid = Guid::nil();
    let mut known = false;
    if let Ok(t) = &analysis.main {
        if t.is_valid() {
            disk_guid = t.header.disk_guid;
            known = true;
        }
    }
    if !known {
        if let Ok(t) = &analysis.secondary {
            if t.is_valid() {
                disk_guid = t.header.disk_guid;
            }
        }
    }
    Archive {
        version: VERSION,
        block_size,
        last_block,
        disk_guid,
        time,
        health: Health::from_verdict(analysis.verdict),
        chunks,
        meta,
    }
}

fn push_chunk(chunks: &mut Vec<Chunk>, chunk: Chunk)
    ensures
        chunks_of(final(chunks)@) == chunks_of(old(chunks)@).push(chunk@),
{
    chunks.push(chunk);
    assert(chunks_of(chunks@) =~= chunks_of(old(chunks)@).push(chunk@));
}

/// One block is asked for only where the analysis has no copy of it.
pub open spec fn header_read(
    before: Seq<Op>,
    after: Seq<Op>,
    block_size: u32,
    last_block: u64,
    lba: u64,
    table: Result<TableView, IoError>,
    reply: Result<Seq<u8>, IoError>,
) -> bool {
    match table {
        Ok(_) => after == before && reply == Ok::<Seq<u8>, IoError>(Seq::empty()),
        Err(_) => range_read(before, after, block_size, last_block, lba, 1, reply),
    }
}

/// What taking a snapshot asks of the device, and what it comes to: up to
/// four reads, in this order. `block_size` and `last_block` are the device's
/// own geometry. An entry array that cannot be read is left out; a header
/// block that cannot be read is the error.
pub open spec fn capture_read(
    before: Seq<Op>,
    after: Seq<Op>,
    block_size: u32,
    last_block: u64,
    a: Analysis,
    time: Timestamp,
    meta: Seq<Pair>,
    r: Result<Archive, IoError>,
) -> bool {
    let main_at = array_place(a.main, a.block_size, 2);
    let secondary_at = array_place(
        a.secondary,
        a.block_size,
        below_last(a.last_block, a.block_size),
    );
    exists|
        t1: Seq<Op>,
        r1: Result<Seq<u8>, IoError>,
        t2: Seq<Op>,
        r2: Result<Seq<u8>, IoError>,
    |
        #![trigger range_read(before, t1, block_size, last_block, main_at.0, main_at.1, r1),
            header_read(t1, t2, block_size, last_block, 1, a.main, r2)]
        {
            &&& range_read(before, t1, block_size, last_block, main_at.0, main_at.1, r1)
            &&& header_read(t1, t2, block_size, last_block, 1, a.main, r2)
            &&& match r2 {
                Err(e) => after == t2 && r is Err && r->Err_0 == e,
                Ok(h1) => exists|
                    t3: Seq<Op>,
                    r3: Result<Seq<u8>, IoError>,
                    r4: Result<Seq<u8>, IoError>,
                |
                    #![trigger range_read(t2, t3, block_size, last_block, secondary_at.0,
                        secondary_at.1, r3),
                        header_read(t3, after, block_size, last_block, a.last_block,
                            a.secondary, r4)]
                    {
                        &&& range_read(
                            t2,
                            t3,
                            block_size,
                            last_block,
                            secondary_at.0,
                            secondary_at.1,
                            r3,
                        )
                        &&& header_read(
                            t3,
                            after,
                            block_size,
                            last_block,
                            a.last_block,
                            a.secondary,
                            r4,
                        )
                        &&& match r4 {
                            Err(e) => r is Err && r->Err_0 == e,
                            Ok(h2) => r is Ok && r->Ok_0@ == captured(
                                a,
                                time,
                                meta,
                                r1,
                                h1,
                                r3,
                                h2,
                            ),
                        }
                    },
            }
        }
}

fn read_header<D: BlockDevice + ?Sized>(
    dev: &mut D,
    block_size: u32,
    last_block: u64,
    lba: u64,
    table: &Result<TableView, IoError>,
) -> (r: Result<Vec<u8>, IoError>)
    ensures
        header_read(
            old(dev).trace(),
            final(dev).trace(),
            block_size,
            last_block,
            lba,
            *table,
            reply_of(r),
        ),
{
    match table {
        Ok(_) => {
            let none: Vec<u8> = Vec::new();
            assert(none@ =~= Seq::<u8>::empty());
            Ok(none)
        },
        Err(_) => read_range(dev, block_size, last_block, lba, 1),
    }
}

/// Read the structures worth saving off `dev`.
///
/// Where a header is intact its own pointers are followed, so a snapshot
/// records the disk as it actually is rather than as it ought to be. Where
/// it is not, the conventional locations are used, which is the best guess
/// available and still captures the bytes a later investigation would want.
pub fn capture<D: BlockDevice + ?Sized>(
    dev: &mut D,
    analysis: &Analysis,
    time: Timestamp,
    meta: Vec<(String, String)>,
) -> (r: Result<Archive, IoError>)
    ensures
        capture_read(
            old(dev).trace(),
            final(dev).trace(),
            old(dev).blocks_of(),
            old(dev).last_of(),
            *analysis,
            time,
            pairs_of(meta@),
            r,
        ),
{
    let block_size: u32 = dev.block_size();
    let last_block: u64 = dev.last_block();
    let (main_lba, main_blocks): (u64, u64) = find_array(&analysis.main, analysis.block_size, 2);
    let main_array = read_range(dev, block_size, last_block, main_lba, main_blocks);
    let main_header = match read_header(dev, block_size, last_block, 1, &analysis.main) {
        Ok(raw) => raw,
        Err(e) => return Err(e),
    };
    let fallback: u64 = default_array_blocks(analysis.block_size);
    let (secondary_lba, secondary_blocks): (u64, u64) = find_array(
        &analysis.secondary,
        analysis.block_size,
        analysis.last_block.saturating_sub(fallback),
    );
    let secondary_array = read_range(dev, block_size, last_block, secondary_lba, secondary_blocks);
    let secondary_header = match read_header(
        dev,
        block_size,
        last_block,
        analysis.last_block,
        &analysis.secondary,
    ) {
        Ok(raw) => raw,
        Err(e) => return Err(e),
    };
    Ok(
        assemble(
            analysis,
            time,
            meta,
            main_array,
            main_header,
            secondary_array,
            secondary_header,
        ),
    )
}

// ---------------------------------------------------------- the file format

/// The low 32 bits of a length.
pub open spec fn low32(n: nat) -> u32 {
    (n % 0x1_0000_0000) as u32
}

pub(crate) fn low32_of(n: usize) -> (r: u32)
    ensures
        r == low32(n as nat),
{
    (n as u64 % 0x1_0000_0000) as u32
}

/// The fixed part of a file.
#[verifier::opaque]
pub open spec fn fixed_part(a: ArchiveView) -> Seq<u8> {
    magic() + bytes32(VERSION) + bytes32(a.block_size) + bytes64(a.last_block) + a.disk_guid
        + a.time.bytes() + seq![a.health.number()] + bytes32(low32(a.chunks.len()))
}

/// The head of a chunk.
#[verifier::opaque]
pub open spec fn chunk_head(c: ChunkView, block_size: u32) -> Seq<u8> {
    bytes32(c.role.number()) + bytes64(c.lba) + bytes64(whole_blocks(c.data.len(), block_size))
        + bytes64(c.data.len() as u64)
}

/// The first `n` chunks, one after the other.
pub open spec fn chunk_part(chunks: Seq<ChunkView>, block_size: u32, n: nat) -> Seq<u8>
    decreases n,
{
    if n == 0 {
        Seq::empty()
    } else {
        chunk_part(chunks, block_size, (n - 1) as nat) + chunk_head(chunks[n - 1], block_size)
            + chunks[n - 1].data
    }
}

/// Everything a file holds but its checksum.
pub open spec fn archive_body(a: ArchiveView) -> Seq<u8> {
    fixed_part(a) + chunk_part(a.chunks, a.block_size, a.chunks.len()) + bytes32(
        low32(meta_bytes(a.meta).len()),
    ) + meta_bytes(a.meta)
}

/// `body` followed by its checksum.
pub open spec fn sealed(body: Seq<u8>) -> Seq<u8> {
    body + bytes32(crc32_of(body))
}

fn fixed_vec(archive: &Archive) -> (r: Vec<u8>)
    ensures
        r@ == fixed_part(archive@),
{
    reveal(fixed_part);
    let mut out: Vec<u8> = Vec::new();
    put_bytes(&mut out, magic_bytes().as_slice());
    assert(out@ =~= magic());
    put_u32(&mut out, VERSION);
    put_u32(&mut out, archive.block_size);
    put_u64(&mut out, archive.last_block);
    put_bytes(&mut out, archive.disk_guid.0.as_slice());
    archive.time.put(&mut out);
    let ghost before = out@;
    out.push(archive.health.code());
    assert(out@ =~= before + seq![archive.health.number()]);
    put_u32(&mut out, low32_of(archive.chunks.len()));
    out
}

fn chunk_head_vec(chunk: &Chunk, block_size: u32) -> (r: Vec<u8>)
    ensures
        r@ == chunk_head(chunk@, block_size),
{
    reveal(chunk_head);
    let mut out: Vec<u8> = Vec::new();
    put_u32(&mut out, chunk.role.code());
    assert(out@ =~= bytes32(chunk.role.number()));
    put_u64(&mut out, chunk.lba);
    put_u64(&mut out, chunk.blocks(block_size));
    put_u64(&mut out, chunk.data.len() as u64);
    out
}

pub fn encode(archive: &Archive, crc: &impl Crc32) -> (r: Vec<u8>)
    ensures
        r@ == sealed(archive_body(archive@)),
{
    let mut out = fixed_vec(archive);
    let ghost fixed = out@;
    let ghost chunks = archive@.chunks;
    let mut i: usize = 0;
    assert(out@ =~= fixed + chunk_part(chunks, archive.block_size, 0));
    while i < archive.chunks.len()
        invariant
            i <= archive.chunks.len(),
            chunks == archive@.chunks,
            out@ == fixed + chunk_part(chunks, archive.block_size, i as nat),
        decreases archive.chunks.len() - i,
    {
        let head = chunk_head_vec(&archive.chunks[i], archive.block_size);
        put_bytes(&mut out, head.as_slice());
        put_bytes(&mut out, archive.chunks[i].data.as_slice());
        i += 1;
        assert(out@ =~= fixed + chunk_part(chunks, archive.block_size, i as nat));
    }
    let meta = encode_meta(archive.meta.as_slice());
    put_u32(&mut out, low32_of(meta.len()));
    put_bytes(&mut out, meta.as_slice());
    let sum: u32 = crc.crc32(out.as_slice());
    put_u32(&mut out, sum);
    out
}

#[derive(Clone, Copy, PartialEq, Eq, Structural, Debug)]
pub enum DecodeError {
    TooShort,
    BadMagic,
    UnsupportedVersion { found: u32 },
    /// The trailing CRC does not match: the file is damaged or truncated.
    BadChecksum { stored: u32, computed: u32 },
    /// A chunk claims more bytes than the file contains.
    Truncated,
    BadGeometry,
    UnknownRole { code: u32 },
}

impl DecodeError {
    /// What the operator is told.
    pub open spec fn message(self) -> Seq<char> {
        match self {
            DecodeError::TooShort => "file is too short to be a GPT backup"@,
            DecodeError::BadMagic => "not a GPT backup file"@,
            DecodeError::UnsupportedVersion { found } => "format version "@ + dec(found as nat)
                + " is newer than this build understands"@,
            DecodeError::BadChecksum { stored, computed } => "checksum "@ + word(stored)
                + " does not match "@ + word(computed) + ": file damaged"@,
            DecodeError::Truncated => "file is truncated"@,
            DecodeError::BadGeometry => "file declares an implausible block size"@,
            DecodeError::UnknownRole { code } => "file contains an unknown chunk ("@ + dec(
                code as nat,
            ) + ")"@,
        }
    }

    /// What the operator is told.
    pub fn to_text(&self) -> (r: String)
        ensures
            r@ == self.message(),
    {
        match *self {
            DecodeError::TooShort => "file is too short to be a GPT backup".to_owned(),
            DecodeError::BadMagic => "not a GPT backup file".to_owned(),
            DecodeError::UnsupportedVersion { found } => {
                let mut s = "format version ".to_owned();
                s.push_str(dec_text(found as u64).as_str());
                s.push_str(" is newer than this build understands");
                s
            },
            DecodeError::BadChecksum { stored, computed } => {
                let mut s = "checksum ".to_owned();
                s.push_str(word_text(stored).as_str());
                s.push_str(" does not match ");
                s.push_str(word_text(computed).as_str());
                s.push_str(": file damaged");
                s
            },
            DecodeError::Truncated => "file is truncated".to_owned(),
            DecodeError::BadGeometry => "file declares an implausible block size".to_owned(),
            DecodeError::UnknownRole { code } => {
                let mut s = "file contains an unknown chunk (".to_owned();
                s.push_str(dec_text(code as u64).as_str());
                s.push_str(")");
                s
            },
        }
    }
}

/// `count` chunks starting at `off`, and where they end.
pub open spec fn chunks_at(body: Seq<u8>, off: int, count: nat) -> Result<
    (Seq<ChunkView>, int),
    DecodeError,
>
    decreases count,
{
    if count == 0 {
        Ok((Seq::empty(), off))
    } else if off + CHUNK_HEAD_LEN > body.len() {
        Err(DecodeError::Truncated)
    } else {
        let code = le32(body, off);
        let end = off + CHUNK_HEAD_LEN + le64(body, off + 20);
        match Role::numbered(code) {
            None => Err(DecodeError::UnknownRole { code }),
            Some(role) => if end > body.len() {
                Err(DecodeError::Truncated)
            } else {
                let c = ChunkView {
                    role,
                    lba: le64(body, off + 4),
                    data: body.subrange(off + CHUNK_HEAD_LEN, end),
                };
                match chunks_at(body, end, (count - 1) as nat) {
                    Ok((rest, stop)) => Ok((seq![c] + rest, stop)),
                    Err(e) => Err(e),
                }
            },
        }
    }
}

/// The metadata section at `off`.
pub open spec fn meta_at(body: Seq<u8>, off: int) -> Result<Seq<Pair>, DecodeError> {
    if off + 4 > body.len() || off + 4 + le32(body, off) > body.len() {
        Err(DecodeError::Truncated)
    } else {
        Ok(section_pairs(body.subrange(off + 4, off + 4 + le32(body, off))))
    }
}

/// A block size a disk can have.
pub open spec fn plausible_block(block_size: u32) -> bool {
    512 <= block_size <= 65536 && block_size % 512 == 0
}

/// What the body of a file whose checksum holds says.
pub open spec fn body_says(body: Seq<u8>) -> Result<ArchiveView, DecodeError> {
    let version = le32(body, 8);
    if !plausible_block(le32(body, 12)) {
        Err(DecodeError::BadGeometry)
    } else {
        match chunks_at(body, FIXED_LEN as int, le32(body, 48) as nat) {
            Err(e) => Err(e),
            Ok((chunks, end)) => {
                let meta = if version >= 2 {
                    meta_at(body, end)
                } else {
                    Ok(Seq::<Pair>::empty())
                };
                match meta {
                    Err(e) => Err(e),
                    Ok(meta) => Ok(
                        ArchiveView {
                            version,
                            block_size: le32(body, 12),
                            last_block: le64(body, 16),
                            disk_guid: body.subrange(24, 40),
                            time: Timestamp::at(body, 40),
                            health: Health::numbered(body[47]),
                            chunks,
                            meta,
                        },
                    ),
                }
            },
        }
    }
}

/// What a file says.
pub open spec fn file_says(b: Seq<u8>) -> Result<ArchiveView, DecodeError> {
    let body = b.take(b.len() - 4);
    let stored = le32(b, b.len() - 4);
    if b.len() < FIXED_LEN + 4 {
        Err(DecodeError::TooShort)
    } else if b.take(8) != magic() {
        Err(DecodeError::BadMagic)
    } else if !(MIN_VERSION <= le32(b, 8) <= VERSION) {
        Err(DecodeError::UnsupportedVersion { found: le32(b, 8) })
    } else if stored != crc32_of(body) {
        Err(DecodeError::BadChecksum { stored, computed: crc32_of(body) })
    } else {
        body_says(body)
    }
}

/// What decoding came to, as a value.
pub open spec fn decoded(r: Result<Archive, DecodeError>) -> Result<ArchiveView, DecodeError> {
    match r {
        Ok(a) => Ok(a@),
        Err(e) => Err(e),
    }
}

/// Chunks read so far, followed by what the rest of the body says.
pub open spec fn continued(
    done: Seq<ChunkView>,
    rest: Result<(Seq<ChunkView>, int), DecodeError>,
) -> Result<(Seq<ChunkView>, int), DecodeError> {
    match rest {
        Ok((more, end)) => Ok((done + more, end)),
        Err(e) => Err(e),
    }
}

fn read_chunks(body: &[u8], count: u32) -> (r: Result<(Vec<Chunk>, usize), DecodeError>)
    requires
        body@.len() >= FIXED_LEN,
    ensures
        match r {
            Ok((chunks, end)) => end <= body@.len() && chunks_at(
                body@,
                FIXED_LEN as int,
                count as nat,
            ) == Ok::<(Seq<ChunkView>, int), DecodeError>((chunks_of(chunks@), end as int)),
            Err(e) => chunks_at(body@, FIXED_LEN as int, count as nat) == Err::<
                (Seq<ChunkView>, int),
                DecodeError,
            >(e),
        },
{
    let mut chunks: Vec<Chunk> = Vec::new();
    let mut off: usize = FIXED_LEN;
    let mut left: u32 = count;
    assert(chunks_of(chunks@) =~= Seq::<ChunkView>::empty());
    proof {
        let rest = chunks_at(body@, FIXED_LEN as int, count as nat);
        if let Ok((more, end)) = rest {
            assert(Seq::<ChunkView>::empty() + more =~= more);
        }
    }
    while left > 0
        invariant
            FIXED_LEN <= off <= body@.len(),
            left <= count,
            chunks_at(body@, FIXED_LEN as int, count as nat) == continued(
                chunks_of(chunks@),
                chunks_at(body@, off as int, left as nat),
            ),
        decreases left,
    {
        let ghost done = chunks_of(chunks@);
        if body.len() - off < CHUNK_HEAD_LEN {
            return Err(DecodeError::Truncated);
        }
        let code: u32 = rd_u32(body, off);
        let role = match Role::from_code(code) {
            Some(role) => role,
            None => return Err(DecodeError::UnknownRole { code }),
        };
        let lba: u64 = rd_u64(body, off + 4);
        // The block count at offset 12 is derivable from the payload length;
        // it is stored for readability in a hexdump.
        let len: u64 = rd_u64(body, off + 20);
        let start: usize = off + CHUNK_HEAD_LEN;
        if len > (body.len() - start) as u64 {
            return Err(DecodeError::Truncated);
        }
        let end: usize = start + len as usize;
        let data = copied(body, start, end);
        let ghost c = ChunkView { role, lba, data: data@ };
        push_chunk(&mut chunks, Chunk { role, lba, data });
        left -= 1;
        proof {
            if let Ok((more, stop)) = chunks_at(body@, end as int, left as nat) {
                assert(done + (seq![c] + more) =~= done.push(c) + more);
            }
        }
        off = end;
    }
    proof {
        assert(chunks_of(chunks@) + Seq::<ChunkView>::empty() =~= chunks_of(chunks@));
    }
    Ok((chunks, off))
}

pub fn decode(bytes: &[u8], crc: &impl Crc32) -> (r: Result<Archive, DecodeError>)
    ensures
        decoded(r) == file_says(bytes@),
{
    if bytes.len() < FIXED_LEN + 4 {
        return Err(DecodeError::TooShort);
    }
    assert(bytes@.subrange(0, 8) =~= bytes@.take(8));
    if !same_bytes(&bytes[0..8], magic_bytes().as_slice()) {
        return Err(DecodeError::BadMagic);
    }
    let version: u32 = rd_u32(bytes, 8);
    if version < MIN_VERSION || version > VERSION {
        return Err(DecodeError::UnsupportedVersion { found: version });
    }
    let body = &bytes[0..bytes.len() - 4];
    assert(body@ =~= bytes@.take(bytes@.len() - 4));
    let stored: u32 = rd_u32(bytes, bytes.len() - 4);
    let computed: u32 = crc.crc32(body);
    if stored != computed {
        return Err(DecodeError::BadChecksum { stored, computed });
    }
    proof {
        same_le32(bytes@, body@, 8);
    }
    let block_size: u32 = rd_u32(body, 12);
    if block_size < 512 || block_size % 512 != 0 || block_size > 65536 {
        return Err(DecodeError::BadGeometry);
    }
    let last_block: u64 = rd_u64(body, 16);
    let disk_guid = match Guid::read_from(body, 24) {
        Some(guid) => guid,
        None => return Err(DecodeError::TooShort),
    };
    let time = Timestamp::read(body, 40);
    let health = Health::from_code(body[47]);
    let (chunks, off): (Vec<Chunk>, usize) = match read_chunks(body, rd_u32(body, 48)) {
        Ok(found) => found,
        Err(e) => return Err(e),
    };
    let mut meta: Vec<(String, String)> = Vec::new();
    assert(pairs_of(meta@) =~= Seq::<Pair>::empty());
    if version >= 2 {
        if body.len() - off < 4 {
            return Err(DecodeError::Truncated);
        }
        let len: u32 = rd_u32(body, off);
        let start: usize = off + 4;
        if len as u64 > (body.len() - start) as u64 {
            return Err(DecodeError::Truncated);
        }
        meta = decode_meta(&body[start..start + len as usize]);
    }
    Ok(Archive { version, block_size, last_block, disk_guid, time, health, chunks, meta })
}

/// A number reads the same from a buffer and from the front of it.
pub(crate) proof fn same_le32(b: Seq<u8>, front: Seq<u8>, off: int)
    requires
        0 <= off,
        off + 4 <= front.len() <= b.len(),
        front == b.take(front.len() as int),
    ensures
        le32(front, off) == le32(b, off),
{
    reveal(le32);
    reveal(le16);
}

// ------------------------------------------------------------------ restore

/// Why an archive cannot be written to a particular disk.
#[derive(Clone, Copy, PartialEq, Eq, Structural, Debug)]
#[allow(inconsistent_fields)]
pub enum Mismatch {
    BlockSize { archive: u32, disk: u32 },
    LastBlock { archive: u64, disk: u64 },
    /// A chunk would land outside the disk.
    OutOfRange { lba: u64, blocks: u64, last_block: u64 },
    /// A chunk's payload is not a whole number of blocks.
    Unaligned { lba: u64, len: usize },
    /// Nothing to write: the archive has no header chunks.
    Incomplete,
}

impl Mismatch {
    /// What the operator is told.
    pub open spec fn message(self) -> Seq<char> {
        match self {
            Mismatch::BlockSize { archive, disk } => "backup is from a "@ + dec(archive as nat)
                + "-byte-block disk, this one uses "@ + dec(disk as nat),
            Mismatch::LastBlock { archive, disk } => "backup is from a disk of "@ + dec(
                (archive + 1) as nat,
            ) + " blocks, this one has "@ + dec((disk + 1) as nat),
            Mismatch::OutOfRange { lba, blocks, last_block } => "a "@ + dec(blocks as nat)
                + "-block section at LBA "@ + dec(lba as nat)
                + " falls outside this disk (last block "@ + dec(last_block as nat) + ")"@,
            Mismatch::Unaligned { lba, len } => "the section for LBA "@ + dec(lba as nat) + " is "@
                + dec(len as nat) + " bytes, not a whole number of blocks"@,
            Mismatch::Incomplete => "the backup does not contain both GPT headers"@,
        }
    }

    /// What the operator is told.
    pub fn to_text(&self) -> (r: String)
        ensures
            r@ == self.message(),
    {
        match *self {
            Mismatch::BlockSize { archive, disk } => {
                let mut s = "backup is from a ".to_owned();
                s.push_str(dec_text(archive as u64).as_str());
                s.push_str("-byte-block disk, this one uses ");
                s.push_str(dec_text(disk as u64).as_str());
                s
            },
            Mismatch::LastBlock { archive, disk } => {
                let mut s = "backup is from a disk of ".to_owned();
                s.push_str(succ_text(archive).as_str());
                s.push_str(" blocks, this one has ");
                s.push_str(succ_text(disk).as_str());
                s
            },
            Mismatch::OutOfRange { lba, blocks, last_block } => {
                let mut s = "a ".to_owned();
                s.push_str(dec_text(blocks).as_str());
                s.push_str("-block section at LBA ");
                s.push_str(dec_text(lba).as_str());
                s.push_str(" falls outside this disk (last block ");
                s.push_str(dec_text(last_block).as_str());
                s.push_str(")");
                s
            },
            Mismatch::Unaligned { lba, len } => {
                let mut s = "the section for LBA ".to_owned();
                s.push_str(dec_text(lba).as_str());
                s.push_str(" is ");
                s.push_str(dec_text(len as u64).as_str());
                s.push_str(" bytes, not a whole number of blocks");
                s
            },
            Mismatch::Incomplete => "the backup does not contain both GPT headers".to_owned(),
        }
    }
}

/// Why one chunk cannot be written to a disk.
pub open spec fn chunk_mismatch(c: ChunkView, block_size: u32, last_block: u64) -> Option<Mismatch> {
    let blocks = whole_blocks(c.data.len(), block_size);
    if c.data.len() == 0 || c.data.len() % block_size as nat != 0 {
        Some(Mismatch::Unaligned { lba: c.lba, len: c.data.len() as usize })
    } else if (if c.lba + blocks <= u64::MAX {
        c.lba + blocks
    } else {
        u64::MAX as int
    }) > last_block + 1 {
        Some(Mismatch::OutOfRange { lba: c.lba, blocks, last_block })
    } else {
        None
    }
}

/// Why the first of the chunks from `i` on that cannot be written cannot.
pub open spec fn first_mismatch(
    chunks: Seq<ChunkView>,
    i: int,
    block_size: u32,
    last_block: u64,
) -> Option<Mismatch>
    decreases chunks.len() - i,
{
    if i < 0 || i >= chunks.len() {
        None
    } else {
        match chunk_mismatch(chunks[i], block_size, last_block) {
            Some(m) => Some(m),
            None => first_mismatch(chunks, i + 1, block_size, last_block),
        }
    }
}

/// Why a snapshot cannot be written to a disk of this geometry. Geometry
/// must match exactly: a snapshot of a different-sized disk describes
/// partitions that are not there.
pub open spec fn unfit(a: ArchiveView, block_size: u32, last_block: u64) -> Option<Mismatch> {
    if a.block_size != block_size {
        Some(Mismatch::BlockSize { archive: a.block_size, disk: block_size })
    } else if a.last_block != last_block {
        Some(Mismatch::LastBlock { archive: a.last_block, disk: last_block })
    } else {
        match first_mismatch(a.chunks, 0, block_size, last_block) {
            Some(m) => Some(m),
            None => if a.chunk(Role::PrimaryHeader) is None || a.chunk(Role::BackupHeader) is None
                || a.header_chunk() is None {
                Some(Mismatch::Incomplete)
            } else {
                None
            },
        }
    }
}

/// `steps` with the write that puts one chunk back, if there is one.
pub open spec fn with_chunk(steps: Seq<StepView>, a: ArchiveView, role: Role) -> Seq<StepView> {
    match a.chunk(role) {
        Some(c) => steps.push(StepView::Write { lba: c.lba, data: c.data, what: role.label() }),
        None => steps,
    }
}

/// The ordered restore: both entry arrays, made durable, then everything
/// that points at them.
pub open spec fn restore_steps(a: ArchiveView) -> Seq<StepView> {
    let arrays = with_chunk(
        with_chunk(Seq::empty(), a, Role::PrimaryEntries),
        a,
        Role::BackupEntries,
    ).push(
        StepView::Flush { why: "entry arrays must be durable before the headers point at them"@ },
    );
    with_chunk(
        with_chunk(with_chunk(arrays, a, Role::Mbr), a, Role::PrimaryHeader),
        a,
        Role::BackupHeader,
    ).push(StepView::Flush { why: "commit headers"@ })
}

fn push_write(steps: &mut Vec<Step>, archive: &Archive, role: Role)
    ensures
        steps_of(final(steps)@) == with_chunk(steps_of(old(steps)@), archive@, role),
{
    if let Some(c) = archive.chunk(role) {
        let data = copied(c.data.as_slice(), 0, c.data.len());
        assert(data@ =~= c.data@);
        push_step(steps, Step::Write { lba: c.lba, data, what: role.describe().to_owned() });
    }
}

fn find_mismatch(archive: &Archive, last_block: u64) -> (r: Option<Mismatch>)
    requires
        archive.block_size > 0 || archive.chunks@.len() == 0,
    ensures
        r == first_mismatch(archive@.chunks, 0, archive.block_size, last_block),
{
    let ghost chunks = archive@.chunks;
    let mut i: usize = 0;
    while i < archive.chunks.len()
        invariant
            i <= archive.chunks.len(),
            chunks == archive@.chunks,
            archive.block_size > 0 || archive.chunks@.len() == 0,
            first_mismatch(chunks, 0, archive.block_size, last_block) == first_mismatch(
                chunks,
                i as int,
                archive.block_size,
                last_block,
            ),
        decreases archive.chunks.len() - i,
    {
        let chunk = &archive.chunks[i];
        let lba: u64 = chunk.lba;
        let len: usize = chunk.data.len();
        assert(chunks[i as int] == chunk@);
        if len == 0 || len % archive.block_size as usize != 0 {
            return Some(Mismatch::Unaligned { lba, len });
        }
        let blocks: u64 = chunk.blocks(archive.block_size);
        let end: u64 = lba.saturating_add(blocks);
        if end > 0 && end - 1 > last_block {
            return Some(Mismatch::OutOfRange { lba, blocks, last_block });
        }
        i += 1;
    }
    None
}

/// Putting a snapshot back, and the table as it will stand afterwards.
pub open spec fn restored_plan(a: ArchiveView) -> PlanView {
    PlanView {
        steps: restore_steps(a),
        header: GptHeader::in_bytes(a.header_chunk()->0.data),
        entries: a.entry_list(),
    }
}

/// Build the ordered restore for `archive` onto the disk `analysis` came
/// from.
///
/// Geometry must match exactly. A backup from a different-sized disk
/// describes partitions that are not there, and a backup GPT header names
/// an LBA that only exists on the disk it came from. Sections cannot be
/// counted in blocks of no size, so an archive with sections has a block
/// size.
pub fn restore_plan(archive: &Archive, analysis: &Analysis) -> (r: Result<RepairPlan, Mismatch>)
    requires
        archive.block_size > 0 || archive.chunks@.len() == 0 || archive.block_size
            != analysis.block_size || archive.last_block != analysis.last_block,
    ensures
        match r {
            Err(m) => unfit(archive@, analysis.block_size, analysis.last_block) == Some(m),
            Ok(p) => {
                &&& unfit(archive@, analysis.block_size, analysis.last_block) is None
                &&& steps_of(p.steps@) == restore_steps(archive@)
                &&& p.header == GptHeader::in_bytes(archive@.header_chunk()->0.data)
                &&& p.entries@ == archive@.entry_list()
            },
        },
{
    if archive.block_size != analysis.block_size {
        return Err(
            Mismatch::BlockSize { archive: archive.block_size, disk: analysis.block_size },
        );
    }
    if archive.last_block != analysis.last_block {
        return Err(
            Mismatch::LastBlock { archive: archive.last_block, disk: analysis.last_block },
        );
    }
    if let Some(m) = find_mismatch(archive, analysis.last_block) {
        return Err(m);
    }
    if archive.chunk(Role::PrimaryHeader).is_none() || archive.chunk(
        Role::BackupHeader,
    ).is_none() {
        return Err(Mismatch::Incomplete);
    }
    // The report needs a header and a table to show. Prefer the primary
    // copy; fall back to the backup so a snapshot with a damaged primary
    // still renders something.
    let header = match archive.primary_header() {
        Some(h) => h,
        None => match archive.header_in(Role::BackupHeader) {
            Some(h) => h,
            None => return Err(Mismatch::Incomplete),
        },
    };
    proof {
        header.parsed_is_in_bytes(archive@.header_chunk()->0.data);
    }
    let entries = archive.entries();
    // Same rule as a repair: an array must be durable before any header
    // claims it is there with a given CRC.
    let mut steps: Vec<Step> = Vec::new();
    assert(steps_of(steps@) =~= Seq::<StepView>::empty());
    push_write(&mut steps, archive, Role::PrimaryEntries);
    push_write(&mut steps, archive, Role::BackupEntries);
    push_step(
        &mut steps,
        Step::Flush { why: "entry arrays must be durable before the headers point at them" },
    );
    push_write(&mut steps, archive, Role::Mbr);
    push_write(&mut steps, archive, Role::PrimaryHeader);
    push_write(&mut steps, archive, Role::BackupHeader);
    push_step(&mut steps, Step::Flush { why: "commit headers" });
    Ok(RepairPlan { steps, header, entries })
}

// -------------------------------------------------------------------- names

/// The number in `gpt.NNN`, case-insensitively: FAT may hand back `GPT.001`.
///
/// Snapshots are named `gpt.001`, `gpt.002`, ... A sequence number rather
/// than a timestamp for two reasons. It fits 8.3, so the name reads the same
/// from firmware, Windows and Linux. And it does not depend on the clock:
/// firmware that will not give a sensible time would otherwise produce a
/// pile of identically-named files, exactly when ambiguity is least welcome.
/// The date lives inside the file.
pub fn sequence_of(name: &str) -> (r: Option<u32>)
    ensures
        r == names::sequence_of_text(name@, "gpt."@, ""@),
{
    names::sequence_of(name, "gpt.", "")
}

/// The next name to write, given what is already there.
///
/// Counts from the highest rather than filling gaps: reusing the number of
/// a snapshot someone deleted would make the ordering lie about which is
/// newest. `None` once the space is exhausted: better to say so than to
/// overwrite somebody's oldest backup.
pub fn next_name(existing: &[String]) -> (r: Option<String>)
    ensures
        content_of(r) == names::name_after(
            strings_of(existing@),
            "gpt."@,
            ""@,
            MAX_SEQUENCE,
        ),
{
    names::next_name(existing, "gpt.", "", MAX_SEQUENCE)
}

// ---------------------------------------------------------------- rendering

/// How many of the first `n` entries are in use.
pub open spec fn used_count(entries: Seq<PartitionEntry>, n: nat) -> nat
    decreases n,
{
    if n == 0 {
        0
    } else if entries[n - 1].used() {
        used_count(entries, (n - 1) as nat) + 1
    } else {
        used_count(entries, (n - 1) as nat)
    }
}

proof fn used_count_bound(entries: Seq<PartitionEntry>, n: nat)
    ensures
        used_count(entries, n) <= n,
    decreases n,
{
    if n > 0 {
        used_count_bound(entries, (n - 1) as nat);
    }
}

fn count_used(entries: &[PartitionEntry]) -> (r: usize)
    ensures
        r == used_count(entries@, entries@.len()),
{
    let mut n: usize = 0;
    let mut i: usize = 0;
    while i < entries.len()
        invariant
            i <= entries.len(),
            n <= i,
            n == used_count(entries@, i as nat),
        decreases entries.len() - i,
    {
        if entries[i].is_used() {
            n += 1;
        }
        i += 1;
    }
    n
}

/// One-line summary of a snapshot.
pub open spec fn summary_text(a: ArchiveView) -> Seq<char> {
    a.time.text() + "  "@ + pad_left(
        dec(used_count(a.entry_list(), a.entry_list().len())),
        2,
        ' ',
    ) + " parts  "@ + pad_left(human(disk_capacity(a.last_block, a.block_size)), 9, ' ') + "  "@
        + a.health.message()
}

/// One-line summary for a list of saved backups.
///
/// Ordered date first, because that is what people scan a list of backups
/// by, and the rest has to survive being clipped on a narrow console.
pub fn summary(archive: &Archive) -> (r: String)
    ensures
        r@ == summary_text(archive@),
{
    let entries = archive.entries();
    let used: usize = count_used(entries.as_slice());
    let mut s = archive.time.to_text();
    s.push_str("  ");
    s.push_str(pad_left_text(dec_text(used as u64).as_str(), 2, ' ').as_str());
    s.push_str(" parts  ");
    s.push_str(pad_left_text(human_size(archive.capacity()).as_str(), 9, ' ').as_str());
    s.push_str("  ");
    s.push_str(archive.health.describe());
    s
}

/// One line per chunk.
pub open spec fn chunk_lines(chunks: Seq<ChunkView>, block_size: u32) -> Seq<LineView> {
    Seq::new(
        chunks.len(),
        |i: int|
            styled(
                "    LBA "@ + pad_right(dec(chunks[i].lba as nat), 12) + " "@
                    + chunks[i].role.label() + " ("@ + dec(
                    whole_blocks(chunks[i].data.len(), block_size) as nat,
                ) + " blocks)"@,
                Style::Dim,
            ),
    )
}

fn render_chunks(archive: &Archive, out: &mut Vec<Line>)
    ensures
        shown(final(out)@) == shown(old(out)@) + chunk_lines(archive@.chunks, archive.block_size),
{
    let ghost head = shown(out@);
    let ghost chunks = archive@.chunks;
    let bs: u32 = archive.block_size;
    let mut i: usize = 0;
    assert(shown(out@) =~= head + chunk_lines(chunks.take(0), bs));
    while i < archive.chunks.len()
        invariant
            i <= archive.chunks.len(),
            chunks == archive@.chunks,
            bs == archive.block_size,
            shown(out@) == head + chunk_lines(chunks.take(i as int), bs),
        decreases archive.chunks.len() - i,
    {
        let chunk = &archive.chunks[i];
        let mut s = "    LBA ".to_owned();
        s.push_str(pad_right_text(dec_text(chunk.lba).as_str(), 12).as_str());
        s.push_str(" ");
        s.push_str(chunk.role.describe());
        s.push_str(" (");
        s.push_str(dec_text(chunk.blocks(bs)).as_str());
        s.push_str(" blocks)");
        add_line(out, dim(s));
        i += 1;
        assert(shown(out@) =~= head + chunk_lines(chunks.take(i as int), bs));
    }
    assert(chunks.take(i as int) =~= chunks);
}

/// What is said of the state a snapshot was taken in, below its contents.
pub open spec fn health_note(health: Health) -> Seq<LineView> {
    match health {
        Health::Healthy => Seq::empty(),
        Health::MbrOnly => seq![
            blank_line(),
            styled("  NOTE: both tables were sound, but the protective MBR was"@, Style::Warn),
            styled("  wrong and is saved as found. Restoring puts that back"@, Style::Warn),
            styled("  too; the repair operation regenerates it properly."@, Style::Warn),
        ],
        _ => seq![
            blank_line(),
            styled("  WARNING: this snapshot was taken from a table that was"@, Style::Bad),
            styled("  already damaged. Restoring it reinstates the damage."@, Style::Bad),
        ],
    }
}

/// Lines describing an archive in full.
pub open spec fn archive_lines(a: ArchiveView) -> Seq<LineView> {
    seq![
        styled("  Taken:      "@ + a.time.text(), Style::Key),
        styled("  Disk GUID:  "@ + guid_text(a.disk_guid), Style::Dim),
        styled(
            "  Geometry:   "@ + dec((a.last_block + 1) as nat) + " blocks x "@ + dec(
                a.block_size as nat,
            ) + " B"@,
            Style::Dim,
        ),
        styled("  State then: "@ + a.health.message(), a.health.severity()),
        blank_line(),
        styled("  Contains:"@, Style::Title),
    ] + chunk_lines(a.chunks, a.block_size) + health_note(a.health)
}

/// Lines describing an archive in full, for the screen before a restore.
pub fn describe(archive: &Archive) -> (r: Vec<Line>)
    ensures
        shown(r@) == archive_lines(archive@),
{
    let mut out = no_lines();
    let mut s = "  Taken:      ".to_owned();
    s.push_str(archive.time.to_text().as_str());
    add_line(&mut out, key(s));
    let mut s = "  Disk GUID:  ".to_owned();
    s.push_str(archive.disk_guid.to_text().as_str());
    add_line(&mut out, dim(s));
    let mut s = "  Geometry:   ".to_owned();
    s.push_str(succ_text(archive.last_block).as_str());
    s.push_str(" blocks x ");
    s.push_str(dec_text(archive.block_size as u64).as_str());
    s.push_str(" B");
    add_line(&mut out, dim(s));
    let mut s = "  State then: ".to_owned();
    s.push_str(archive.health.describe());
    add_line(&mut out, Line::new(s, archive.health.style()));
    add_line(&mut out, Line::blank());
    add_line(&mut out, title("  Contains:"));
    render_chunks(archive, &mut out);
    let ghost before = shown(out@);
    match archive.health {
        Health::Healthy => {},
        Health::MbrOnly => {
            add_line(&mut out, Line::blank());
            add_line(
                &mut out,
                crate::style::warn("  NOTE: both tables were sound, but the protective MBR was"),
            );
            add_line(
                &mut out,
                crate::style::warn("  wrong and is saved as found. Restoring puts that back"),
            );
            add_line(
                &mut out,
                crate::style::warn("  too; the repair operation regenerates it properly."),
            );
        },
        _ => {
            add_line(&mut out, Line::blank());
            add_line(
                &mut out,
                crate::style::bad("  WARNING: this snapshot was taken from a table that was"),
            );
            add_line(
                &mut out,
                crate::style::bad("  already damaged. Restoring it reinstates the damage."),
            );
        },
    }
    assert(shown(out@) =~= before + health_note(archive.health));
    out
}

// --------------------------------------------------------------- comparison

/// How strongly a snapshot belongs to a particular disk.
#[derive(Clone, Copy, PartialEq, Eq, Structural, Debug)]
pub enum Match {
    /// Same disk GUID and geometry. This snapshot is this disk's own.
    SameDisk,
    /// Geometry fits, but the disk GUID differs: a reinstall, a restored
    /// image, or a different drive of the same model.
    SameGeometry,
    /// Does not fit. Restore will refuse.
    DifferentDisk,
}

/// What a snapshot and a disk have in common.
///
/// The point of this is the question someone asks years later: *is this
/// file from this machine?* Geometry and disk GUID answer part of it, but
/// the strongest evidence is the per-partition unique GUIDs. Those are
/// generated once when a partition is created and survive OS upgrades, so
/// a snapshot sharing eight of them with the disk in front of you is that
/// disk's, whatever else has changed.
#[derive(Clone, Copy, PartialEq, Eq, Structural, Debug)]
pub struct Comparison {
    pub geometry: bool,
    pub disk_guid: bool,
    pub shared_partitions: usize,
    pub archive_partitions: usize,
}

impl Comparison {
    /// How strongly the snapshot belongs to the disk. Partition identity
    /// outranks the disk GUID: the GUID is a single field that any
    /// partitioner may rewrite, whereas matching unique GUIDs across several
    /// partitions cannot happen by accident.
    pub open spec fn conclusion(self) -> Match {
        if !self.geometry {
            Match::DifferentDisk
        } else if self.disk_guid || (self.archive_partitions > 0 && self.shared_partitions * 2
            >= self.archive_partitions) {
            Match::SameDisk
        } else {
            Match::SameGeometry
        }
    }

    pub fn verdict(&self) -> (r: Match)
        ensures
            r == self.conclusion(),
    {
        if !self.geometry {
            return Match::DifferentDisk;
        }
        if self.disk_guid {
            return Match::SameDisk;
        }
        if self.archive_partitions > 0 && (self.shared_partitions >= self.archive_partitions
            || self.shared_partitions >= self.archive_partitions - self.shared_partitions) {
            return Match::SameDisk;
        }
        Match::SameGeometry
    }

    /// How good the conclusion is.
    pub open spec fn severity(self) -> Style {
        match self.conclusion() {
            Match::SameDisk => Style::Good,
            Match::SameGeometry => Style::Warn,
            Match::DifferentDisk => Style::Bad,
        }
    }

    pub fn style(&self) -> (r: Style)
        ensures
            r == self.severity(),
    {
        match self.verdict() {
            Match::SameDisk => Style::Good,
            Match::SameGeometry => Style::Warn,
            Match::DifferentDisk => Style::Bad,
        }
    }

    /// The evidence, in words.
    pub open spec fn evidence(self) -> Seq<char> {
        match self.conclusion() {
            Match::SameDisk => dec(self.shared_partitions as nat) + " of "@ + dec(
                self.archive_partitions as nat,
            ) + " partitions still carry the same unique GUID"@,
            Match::SameGeometry => "geometry fits, but no partition is recognisably the same"@,
            Match::DifferentDisk => "geometry does not fit"@,
        }
    }

    /// The evidence, phrased so a caller can put a disk name in front of it.
    pub fn describe(&self) -> (r: String)
        ensures
            r@ == self.evidence(),
    {
        match self.verdict() {
            Match::SameDisk => {
                let mut s = dec_text(self.shared_partitions as u64);
                s.push_str(" of ");
                s.push_str(dec_text(self.archive_partitions as u64).as_str());
                s.push_str(" partitions still carry the same unique GUID");
                s
            },
            Match::SameGeometry => {
                "geometry fits, but no partition is recognisably the same".to_owned()
            },
            Match::DifferentDisk => "geometry does not fit".to_owned(),
        }
    }
}

/// A used entry among `entries` has this unique GUID.
pub open spec fn carries(entries: Seq<PartitionEntry>, guid: Guid) -> bool {
    exists|i: int|
        0 <= i < entries.len() && (#[trigger] entries[i]).used() && entries[i].unique_guid == guid
}

/// How many of the first `n` entries are in use and carried by `other` too.
pub open spec fn shared_count(
    entries: Seq<PartitionEntry>,
    other: Seq<PartitionEntry>,
    n: nat,
) -> nat
    decreases n,
{
    if n == 0 {
        0
    } else if entries[n - 1].used() && carries(other, entries[n - 1].unique_guid) {
        shared_count(entries, other, (n - 1) as nat) + 1
    } else {
        shared_count(entries, other, (n - 1) as nat)
    }
}

/// The partitions of the table worth believing, if there is one.
pub open spec fn best_entries(a: Analysis) -> Seq<PartitionEntry> {
    match a.best() {
        Some(t) => t.entries@,
        None => Seq::empty(),
    }
}

/// What a snapshot and a disk have in common.
pub open spec fn comparison(a: ArchiveView, disk: Analysis) -> Comparison {
    let entries = a.entry_list();
    Comparison {
        geometry: a.block_size == disk.block_size && a.last_block == disk.last_block,
        disk_guid: a.disk_guid != crate::bytes::zeros(16) && (disk.best() matches Some(t)
            && t.header.disk_guid.0@ == a.disk_guid),
        shared_partitions: shared_count(entries, best_entries(disk), entries.len()) as usize,
        archive_partitions: used_count(entries, entries.len()) as usize,
    }
}

fn is_carried(entries: &[PartitionEntry], guid: &Guid) -> (r: bool)
    ensures
        r == carries(entries@, *guid),
{
    let mut i: usize = 0;
    while i < entries.len()
        invariant
            i <= entries.len(),
            forall|j: int|
                0 <= j < i ==> !((#[trigger] entries@[j]).used() && entries@[j].unique_guid
                    == *guid),
        decreases entries.len() - i,
    {
        if entries[i].is_used() && entries[i].unique_guid.same(guid) {
            assert(entries@[i as int].used());
            return true;
        }
        i += 1;
    }
    false
}

fn count_shared(entries: &[PartitionEntry], other: &[PartitionEntry]) -> (r: usize)
    ensures
        r == shared_count(entries@, other@, entries@.len()),
{
    let mut n: usize = 0;
    let mut i: usize = 0;
    while i < entries.len()
        invariant
            i <= entries.len(),
            n <= i,
            n == shared_count(entries@, other@, i as nat),
        decreases entries.len() - i,
    {
        if entries[i].is_used() && is_carried(other, &entries[i].unique_guid) {
            n += 1;
        }
        i += 1;
    }
    n
}

pub fn compare(archive: &Archive, analysis: &Analysis) -> (r: Comparison)
    ensures
        r == comparison(archive@, *analysis),
{
    let entries = archive.entries();
    let none: Vec<PartitionEntry> = Vec::new();
    let (disk_entries, disk_guid): (&[PartitionEntry], Option<Guid>) = match analysis.best_view() {
        Some(t) => (t.entries.as_slice(), Some(t.header.disk_guid)),
        None => (none.as_slice(), None),
    };
    assert(disk_entries@ =~= best_entries(*analysis));
    let same_guid = match disk_guid {
        Some(guid) => {
            assert(guid.0@ == archive.disk_guid.0@ ==> guid == archive.disk_guid) by {
                if guid.0@ == archive.disk_guid.0@ {
                    assert(guid.0 =~= archive.disk_guid.0);
                }
            }
            guid.same(&archive.disk_guid)
        },
        None => false,
    };
    let shared: usize = count_shared(entries.as_slice(), disk_entries);
    let used: usize = count_used(entries.as_slice());
    Comparison {
        geometry: archive.block_size == analysis.block_size && archive.last_block
            == analysis.last_block,
        disk_guid: !archive.disk_guid.is_zero() && same_guid,
        shared_partitions: shared,
        archive_partitions: used,
    }
}

// --------------------------------------------------------------- inspection

/// One line per recorded pair.
pub open spec fn pair_lines(meta: Seq<Pair>) -> Seq<LineView> {
    Seq::new(
        meta.len(),
        |i: int| styled("    "@ + pad_right(meta[i].0, 13) + " "@ + meta[i].1, Style::Normal),
    )
}

/// One row of the partition list of a snapshot.
pub open spec fn part_row(
    number: Seq<char>,
    start: Seq<char>,
    size: Seq<char>,
    name: Seq<char>,
    guid: Seq<char>,
) -> Seq<char> {
    "    "@ + pad_left(number, 2, ' ') + "  "@ + pad_left(start, 12, ' ') + " "@ + pad_left(
        size,
        10,
        ' ',
    ) + "  "@ + pad_right(name, 20) + " "@ + guid
}

fn part_row_text(number: &str, start: &str, size: &str, name: &str, guid: &str) -> (r: String)
    ensures
        r@ == part_row(number@, start@, size@, name@, guid@),
{
    let mut s = "    ".to_owned();
    s.push_str(pad_left_text(number, 2, ' ').as_str());
    s.push_str("  ");
    s.push_str(pad_left_text(start, 12, ' ').as_str());
    s.push_str(" ");
    s.push_str(pad_left_text(size, 10, ' ').as_str());
    s.push_str("  ");
    s.push_str(pad_right_text(name, 20).as_str());
    s.push_str(" ");
    s.push_str(guid);
    s
}

/// The rows of the used entries among the first `n`.
pub open spec fn part_rows(entries: Seq<PartitionEntry>, n: nat, block_size: u32) -> Seq<LineView>
    decreases n,
{
    if n == 0 {
        Seq::empty()
    } else {
        let rest = part_rows(entries, (n - 1) as nat, block_size);
        let e = entries[n - 1];
        if e.used() {
            rest.push(
                styled(
                    part_row(
                        dec(n),
                        dec(e.starting_lba as nat),
                        extent_size(e, block_size, "invalid"@),
                        e.name_text(),
                        guid_text(e.unique_guid.0@),
                    ),
                    Style::Normal,
                ),
            )
        } else {
            rest
        }
    }
}

/// When a snapshot was taken, in what state, and of which disk.
pub open spec fn taken_lines(a: ArchiveView, against: Option<(Seq<char>, Comparison)>) -> Seq<
    LineView,
> {
    let taken = seq![styled("  Taken:        "@ + a.time.text(), Style::Key)];
    let dated = if a.time.year < 2000 {
        taken.push(
            styled(
                "                (the clock was not set; treat the date as unknown)"@,
                Style::Warn,
            ),
        )
    } else {
        taken
    };
    let stated = dated.push(styled("  State then:   "@ + a.health.message(), a.health.severity()));
    let placed = match against {
        Some((disk, c)) => stated.push(
            styled("  Belongs to:   "@ + disk + " - "@ + c.evidence(), c.severity()),
        ),
        None => stated,
    };
    placed.push(blank_line())
}

/// What identifies the disk a snapshot was taken of.
pub open spec fn identity_lines(a: ArchiveView) -> Seq<LineView> {
    let head = seq![
        styled("  Identity"@, Style::Title),
        styled("    Disk GUID     "@ + guid_text(a.disk_guid), Style::Normal),
        styled(
            "    Geometry      "@ + dec((a.last_block + 1) as nat) + " blocks x "@ + dec(
                a.block_size as nat,
            ) + " B = "@ + human(disk_capacity(a.last_block, a.block_size)),
            Style::Normal,
        ),
    ];
    let ranged = if a.has_header(Role::PrimaryHeader) {
        let h = GptHeader::in_bytes(a.chunk(Role::PrimaryHeader)->0.data);
        head.push(
            styled(
                "    Usable range  "@ + dec(h.first_usable_lba as nat) + ".."@ + dec(
                    h.last_usable_lba as nat,
                ),
                Style::Normal,
            ),
        ).push(
            styled(
                "    Entry array   "@ + dec(h.number_of_partition_entries as nat) + " entries x "@
                    + dec(h.size_of_partition_entry as nat) + " B at LBA "@ + dec(
                    h.partition_entry_lba as nat,
                ),
                Style::Normal,
            ),
        )
    } else {
        head
    };
    ranged.push(blank_line())
}

/// What was recorded when a snapshot was written.
pub open spec fn provenance_lines(a: ArchiveView) -> Seq<LineView> {
    let head = seq![styled("  Recorded when it was written"@, Style::Title)];
    let told = if a.meta.len() == 0 {
        head.push(
            styled(
                "    nothing: format version "@ + dec(a.version as nat) + " predates provenance"@,
                Style::Dim,
            ),
        )
    } else {
        head + pair_lines(a.meta)
    };
    told.push(blank_line())
}

/// The partitions a snapshot would restore.
pub open spec fn partition_lines(a: ArchiveView) -> Seq<LineView> {
    let entries = a.entry_list();
    (seq![
        styled(
            "  Partitions ("@ + dec(used_count(entries, entries.len())) + ")"@,
            Style::Title,
        ),
        styled(part_row("#"@, "Start LBA"@, "Size"@, "Name"@, "Unique GUID"@), Style::Dim),
    ] + part_rows(entries, entries.len(), a.block_size)).push(blank_line())
}

/// Everything known about a snapshot.
pub open spec fn inspection_lines(
    a: ArchiveView,
    against: Option<(Seq<char>, Comparison)>,
) -> Seq<LineView> {
    (taken_lines(a, against) + identity_lines(a) + provenance_lines(a) + partition_lines(a)).push(
        styled("  Sectors stored"@, Style::Title),
    ) + chunk_lines(a.chunks, a.block_size)
}

fn render_taken(archive: &Archive, against: Option<(&str, &Comparison)>) -> (r: Vec<Line>)
    ensures
        shown(r@) == taken_lines(
            archive@,
            match against {
                Some((disk, c)) => Some((disk@, *c)),
                None => None,
            },
        ),
{
    let mut out = no_lines();
    let mut s = "  Taken:        ".to_owned();
    s.push_str(archive.time.to_text().as_str());
    add_line(&mut out, key(s));
    if archive.time.year < 2000 {
        add_line(
            &mut out,
            Line::new(
                "                (the clock was not set; treat the date as unknown)",
                Style::Warn,
            ),
        );
    }
    let mut s = "  State then:   ".to_owned();
    s.push_str(archive.health.describe());
    add_line(&mut out, Line::new(s, archive.health.style()));
    if let Some((disk, c)) = against {
        let mut s = "  Belongs to:   ".to_owned();
        s.push_str(disk);
        s.push_str(" - ");
        s.push_str(c.describe().as_str());
        add_line(&mut out, Line::new(s, c.style()));
    }
    add_line(&mut out, Line::blank());
    out
}

fn render_identity(archive: &Archive) -> (r: Vec<Line>)
    ensures
        shown(r@) == identity_lines(archive@),
{
    let mut out = no_lines();
    add_line(&mut out, title("  Identity"));
    let mut s = "    Disk GUID     ".to_owned();
    s.push_str(archive.disk_guid.to_text().as_str());
    add_line(&mut out, line(s));
    let mut s = "    Geometry      ".to_owned();
    s.push_str(succ_text(archive.last_block).as_str());
    s.push_str(" blocks x ");
    s.push_str(dec_text(archive.block_size as u64).as_str());
    s.push_str(" B = ");
    s.push_str(human_size(archive.capacity()).as_str());
    add_line(&mut out, line(s));
    if let Some(h) = archive.primary_header() {
        proof {
            h.parsed_is_in_bytes(archive@.chunk(Role::PrimaryHeader)->0.data);
        }
        let mut s = "    Usable range  ".to_owned();
        s.push_str(dec_text(h.first_usable_lba).as_str());
        s.push_str("..");
        s.push_str(dec_text(h.last_usable_lba).as_str());
        add_line(&mut out, line(s));
        let mut s = "    Entry array   ".to_owned();
        s.push_str(dec_text(h.number_of_partition_entries as u64).as_str());
        s.push_str(" entries x ");
        s.push_str(dec_text(h.size_of_partition_entry as u64).as_str());
        s.push_str(" B at LBA ");
        s.push_str(dec_text(h.partition_entry_lba).as_str());
        add_line(&mut out, line(s));
    }
    add_line(&mut out, Line::blank());
    out
}

fn render_provenance(archive: &Archive) -> (r: Vec<Line>)
    ensures
        shown(r@) == provenance_lines(archive@),
{
    let mut out = no_lines();
    add_line(&mut out, title("  Recorded when it was written"));
    let ghost meta = archive@.meta;
    assert(meta.len() == archive.meta@.len());
    if archive.meta.len() == 0 {
        let mut s = "    nothing: format version ".to_owned();
        s.push_str(dec_text(archive.version as u64).as_str());
        s.push_str(" predates provenance");
        add_line(&mut out, dim(s));
    } else {
        let ghost head = shown(out@);
        let mut i: usize = 0;
        assert(shown(out@) =~= head + pair_lines(meta.take(0)));
        while i < archive.meta.len()
            invariant
                i <= archive.meta.len(),
                meta == archive@.meta,
                shown(out@) == head + pair_lines(meta.take(i as int)),
            decreases archive.meta.len() - i,
        {
            let mut s = "    ".to_owned();
            s.push_str(pad_right_text(archive.meta[i].0.as_str(), 13).as_str());
            s.push_str(" ");
            s.push_str(archive.meta[i].1.as_str());
            add_line(&mut out, line(s));
            i += 1;
            assert(shown(out@) =~= head + pair_lines(meta.take(i as int)));
        }
        assert(meta.take(i as int) =~= meta);
    }
    add_line(&mut out, Line::blank());
    out
}

fn render_partitions(archive: &Archive) -> (r: Vec<Line>)
    ensures
        shown(r@) == partition_lines(archive@),
{
    let mut out = no_lines();
    let entries = archive.entries();
    let bs: u32 = archive.block_size;
    let mut s = "  Partitions (".to_owned();
    s.push_str(dec_text(count_used(entries.as_slice()) as u64).as_str());
    s.push_str(")");
    add_line(&mut out, title(s));
    add_line(&mut out, dim(part_row_text("#", "Start LBA", "Size", "Name", "Unique GUID")));
    let ghost head = shown(out@);
    let mut i: usize = 0;
    assert(shown(out@) =~= head + part_rows(entries@, 0, bs));
    while i < entries.len()
        invariant
            i <= entries.len(),
            shown(out@) == head + part_rows(entries@, i as nat, bs),
        decreases entries.len() - i,
    {
        let e = entries[i];
        if e.is_used() {
            add_line(
                &mut out,
                line(
                    part_row_text(
                        succ_text(i as u64).as_str(),
                        dec_text(e.starting_lba).as_str(),
                        extent_text(&e, bs, "invalid").as_str(),
                        e.name_string().as_str(),
                        e.unique_guid.to_text().as_str(),
                    ),
                ),
            );
        }
        i += 1;
        assert(shown(out@) =~= head + part_rows(entries@, i as nat, bs));
    }
    add_line(&mut out, Line::blank());
    out
}

/// Everything known about a snapshot, for someone deciding whether to
/// trust it.
///
/// `against` is the comparison with a specific disk, when one has been
/// chosen; at file-picking time there is none yet.
pub fn inspect(archive: &Archive, against: Option<(&str, &Comparison)>) -> (r: Vec<Line>)
    ensures
        shown(r@) == inspection_lines(
            archive@,
            match against {
                Some((disk, c)) => Some((disk@, *c)),
                None => None,
            },
        ),
{
    let mut out = render_taken(archive, against);
    add_lines(&mut out, render_identity(archive));
    add_lines(&mut out, render_provenance(archive));
    add_lines(&mut out, render_partitions(archive));
    add_line(&mut out, title("  Sectors stored"));
    render_chunks(archive, &mut out);
    out
}

// --------------------------------------------------------------------- laws

/// The chunks from `i` on, one after the other.
spec fn chunk_tail(chunks: Seq<ChunkView>, block_size: u32, i: int) -> Seq<u8>
    decreases chunks.len() - i,
{
    if i < 0 || i >= chunks.len() {
        Seq::empty()
    } else {
        chunk_head(chunks[i], block_size) + chunks[i].data + chunk_tail(chunks, block_size, i + 1)
    }
}

proof fn chunk_part_splits(chunks: Seq<ChunkView>, block_size: u32, n: nat)
    requires
        n <= chunks.len(),
    ensures
        chunk_part(chunks, block_size, n) + chunk_tail(chunks, block_size, n as int) == chunk_tail(
            chunks,
            block_size,
            0,
        ),
    decreases n,
{
    if n == 0 {
        assert(chunk_part(chunks, block_size, 0) + chunk_tail(chunks, block_size, 0)
            =~= chunk_tail(chunks, block_size, 0));
    } else {
        chunk_part_splits(chunks, block_size, (n - 1) as nat);
        let before = chunk_part(chunks, block_size, (n - 1) as nat);
        let head = chunk_head(chunks[n - 1], block_size);
        let data = chunks[n - 1].data;
        let after = chunk_tail(chunks, block_size, n as int);
        assert(before + head + data + after =~= before + (head + data + after));
    }
}

/// The head of a chunk reads back as it was written.
proof fn chunk_head_reads_back(c: ChunkView, block_size: u32, before: Seq<u8>, after: Seq<u8>)
    ensures
        ({
            let b = before + chunk_head(c, block_size) + after;
            let off = before.len() as int;
            &&& chunk_head(c, block_size).len() == CHUNK_HEAD_LEN
            &&& le32(b, off) == c.role.number()
            &&& le64(b, off + 4) == c.lba
            &&& le64(b, off + 20) == c.data.len() as u64
        }),
{
    reveal(chunk_head);
    let h1 = bytes32(c.role.number());
    let h2 = bytes64(c.lba);
    let h3 = bytes64(whole_blocks(c.data.len(), block_size));
    let h4 = bytes64(c.data.len() as u64);
    four_parts(before, h1, h2, h3, h4, after);
    let b = before + chunk_head(c, block_size) + after;
    assert(b =~= before + h1 + h2 + h3 + h4 + after);
    let off = before.len() as int;
    le32_reads_bytes32(b, off, c.role.number());
    le64_reads_bytes64(b, off + 4, c.lba);
    le64_reads_bytes64(b, off + 20, c.data.len() as u64);
}

proof fn four_parts(
    before: Seq<u8>,
    a: Seq<u8>,
    b: Seq<u8>,
    c: Seq<u8>,
    d: Seq<u8>,
    after: Seq<u8>,
)
    requires
        a.len() == 4,
        b.len() == 8,
        c.len() == 8,
        d.len() == 8,
    ensures
        ({
            let s = before + a + b + c + d + after;
            let off = before.len() as int;
            &&& s.subrange(off, off + 4) == a
            &&& s.subrange(off + 4, off + 12) == b
            &&& s.subrange(off + 20, off + 28) == d
        }),
{
    let s = before + a + b + c + d + after;
    let off = before.len() as int;
    assert(s.subrange(off, off + 4) =~= a);
    assert(s.subrange(off + 4, off + 12) =~= b);
    assert(s.subrange(off + 20, off + 28) =~= d);
}

proof fn chunks_read_back(
    chunks: Seq<ChunkView>,
    block_size: u32,
    i: int,
    before: Seq<u8>,
    after: Seq<u8>,
)
    requires
        0 <= i <= chunks.len(),
        forall|j: int| 0 <= j < chunks.len() ==> (#[trigger] chunks[j]).data.len() <= u64::MAX,
    ensures
        chunks_at(
            before + chunk_tail(chunks, block_size, i) + after,
            before.len() as int,
            (chunks.len() - i) as nat,
        ) == Ok::<(Seq<ChunkView>, int), DecodeError>(
            (
                chunks.skip(i),
                (before.len() + chunk_tail(chunks, block_size, i).len()) as int,
            ),
        ),
    decreases chunks.len() - i,
{
    let b = before + chunk_tail(chunks, block_size, i) + after;
    if i == chunks.len() {
        assert(chunks.skip(i) =~= Seq::<ChunkView>::empty());
    } else {
        let c = chunks[i];
        let head = chunk_head(c, block_size);
        let rest = chunk_tail(chunks, block_size, i + 1);
        assert(b =~= before + head + (c.data + rest + after));
        chunk_head_reads_back(c, block_size, before, c.data + rest + after);
        assert(Role::numbered(c.role.number()) == Some(c.role));
        let off = before.len() as int;
        let end = off + 28 + c.data.len();
        assert(b.subrange(off + 28, end) =~= c.data);
        let next = before + head + c.data;
        assert(b =~= next + rest + after);
        chunks_read_back(chunks, block_size, i + 1, next, after);
        assert(seq![c] + chunks.skip(i + 1) =~= chunks.skip(i));
    }
}

/// A snapshot that was saved reads back as it was, in the current version of
/// the format.
///
/// Its block size has to be one a disk can have, its sections and metadata
/// have to be countable in 32 bits, and the metadata itself has to be of the
/// kind that survives (see [`metadata_round_trips`]).
pub proof fn archive_round_trips(a: ArchiveView)
    requires
        plausible_block(a.block_size),
        a.disk_guid.len() == 16,
        a.chunks.len() <= u32::MAX,
        forall|j: int| 0 <= j < a.chunks.len() ==> (#[trigger] a.chunks[j]).data.len() <= u64::MAX,
        a.meta.len() <= MAX_PAIRS,
        forall|i: int| 0 <= i < a.meta.len() ==> durable(#[trigger] a.meta[i]),
        meta_bytes(a.meta).len() <= u32::MAX,
    ensures
        file_says(sealed(archive_body(a))) == Ok::<ArchiveView, DecodeError>(
            ArchiveView { version: VERSION, ..a },
        ),
{
    body_reads_back(a);
    sealed_body_is_read(archive_body(a));
}

/// A body with a checksum behind it is read as that body.
proof fn sealed_body_is_read(body: Seq<u8>)
    requires
        body.len() >= FIXED_LEN,
        body.take(8) == magic(),
        MIN_VERSION <= le32(body, 8) <= VERSION,
    ensures
        file_says(sealed(body)) == body_says(body),
{
    let sum = bytes32(crc32_of(body));
    let file = body + sum;
    assert(sum.len() == 4);
    assert(file.take(file.len() - 4) =~= body);
    assert(file.subrange(file.len() - 4, file.len() as int) =~= sum);
    le32_reads_bytes32(file, file.len() - 4, crc32_of(body));
    assert(file.take(8) =~= body.take(8));
    same_le32(file, body, 8);
}

/// Whichever byte of a sealed file is damaged, its checksum no longer holds.
pub(crate) proof fn damage_breaks_the_seal(body: Seq<u8>, k: int, v: u8)
    requires
        0 <= k < sealed(body).len(),
        v != sealed(body)[k],
    ensures
        ({
            let b = sealed(body).update(k, v);
            le32(b, b.len() - 4) != crc32_of(b.take(b.len() - 4))
        }),
{
    let file = sealed(body);
    let b = file.update(k, v);
    let sum = bytes32(crc32_of(body));
    let end = body.len() as int;
    assert(file.subrange(end, end + 4) =~= sum);
    if k < end {
        assert(b.take(end) =~= body.update(k, v));
        assert(b.subrange(end, end + 4) =~= sum);
        le32_reads_bytes32(b, end, crc32_of(body));
        damage_changes_the_checksum(body, k, v);
    } else {
        assert(b.take(end) =~= body);
        bytes32_of_le32(b, end);
        assert(b.subrange(end, end + 4)[k - end] == v);
        assert(sum[k - end] == file[k]);
    }
}

/// Why a file is refused that was sealed and has byte `k` damaged since.
pub open spec fn damage(b: Seq<u8>, k: int) -> DecodeError {
    if k < 8 {
        DecodeError::BadMagic
    } else if k < 12 && !(MIN_VERSION <= le32(b, 8) <= VERSION) {
        DecodeError::UnsupportedVersion { found: le32(b, 8) }
    } else {
        DecodeError::BadChecksum {
            stored: le32(b, b.len() - 4),
            computed: crc32_of(b.take(b.len() - 4)),
        }
    }
}

proof fn damaged_file_is_refused(body: Seq<u8>, k: int, v: u8)
    requires
        body.len() >= FIXED_LEN,
        body.take(8) == magic(),
        le32(body, 8) == VERSION,
        0 <= k < sealed(body).len(),
        v != sealed(body)[k],
    ensures
        ({
            let b = sealed(body).update(k, v);
            file_says(b) == Err::<ArchiveView, DecodeError>(damage(b, k))
        }),
{
    let file = sealed(body);
    let b = file.update(k, v);
    damage_breaks_the_seal(body, k, v);
    assert(file.take(8) =~= body.take(8));
    if k < 8 {
        assert(b.take(8)[k] != file.take(8)[k]);
    } else {
        assert(b.take(8) =~= file.take(8));
    }
    if k >= 12 {
        assert(b.take(12) =~= body.take(12));
        same_le32(b, b.take(12), 8);
        same_le32(body, body.take(12), 8);
    }
}

/// A snapshot with any one byte damaged is refused, and never read as another
/// one: damage to the magic is named as such, a version that is not supported
/// too, and all other damage breaks the checksum.
pub proof fn a_damaged_byte_is_caught(a: ArchiveView, k: int, v: u8)
    requires
        a.disk_guid.len() == 16,
        0 <= k < sealed(archive_body(a)).len(),
        v != sealed(archive_body(a))[k],
    ensures
        ({
            let b = sealed(archive_body(a)).update(k, v);
            file_says(b) == Err::<ArchiveView, DecodeError>(damage(b, k))
        }),
{
    let rest = chunk_part(a.chunks, a.block_size, a.chunks.len()) + bytes32(
        low32(meta_bytes(a.meta).len()),
    ) + meta_bytes(a.meta);
    fixed_reads_back(a, rest);
    assert(archive_body(a) =~= fixed_part(a) + rest);
    damaged_file_is_refused(archive_body(a), k, v);
}

/// A snapshot with any one bit flipped is refused.
pub proof fn a_flipped_bit_is_caught(a: ArchiveView, k: int, bit: u8)
    requires
        a.disk_guid.len() == 16,
        0 <= k < sealed(archive_body(a)).len(),
        bit < 8,
    ensures
        ({
            let b = sealed(archive_body(a));
            file_says(b.update(k, b[k] ^ (1u8 << bit))) is Err
        }),
{
    let b = sealed(archive_body(a));
    a_flipped_bit_is_a_change(b[k], bit);
    a_damaged_byte_is_caught(a, k, b[k] ^ (1u8 << bit));
}

/// A file too short for its fixed part and a checksum is said to be so,
/// whatever it holds.
pub proof fn a_stub_is_too_short(b: Seq<u8>)
    requires
        b.len() < FIXED_LEN + 4,
    ensures
        file_says(b) == Err::<ArchiveView, DecodeError>(DecodeError::TooShort),
{
}

proof fn body_reads_back(a: ArchiveView)
    requires
        plausible_block(a.block_size),
        a.disk_guid.len() == 16,
        a.chunks.len() <= u32::MAX,
        forall|j: int| 0 <= j < a.chunks.len() ==> (#[trigger] a.chunks[j]).data.len() <= u64::MAX,
        a.meta.len() <= MAX_PAIRS,
        forall|i: int| 0 <= i < a.meta.len() ==> durable(#[trigger] a.meta[i]),
        meta_bytes(a.meta).len() <= u32::MAX,
    ensures
        archive_body(a).len() >= FIXED_LEN,
        archive_body(a).take(8) == magic(),
        le32(archive_body(a), 8) == VERSION,
        body_says(archive_body(a)) == Ok::<ArchiveView, DecodeError>(
            ArchiveView { version: VERSION, ..a },
        ),
{
    let fixed = fixed_part(a);
    let chunks = chunk_part(a.chunks, a.block_size, a.chunks.len());
    let meta = meta_bytes(a.meta);
    let count = bytes32(low32(meta.len()));
    let body = archive_body(a);
    fixed_reads_back(a, chunks + count + meta);
    assert(body =~= fixed + (chunks + count + meta));
    section_reads_back(fixed + chunks, meta);
    chunk_part_splits(a.chunks, a.block_size, a.chunks.len());
    assert(chunks + chunk_tail(a.chunks, a.block_size, a.chunks.len() as int) =~= chunks);
    chunks_read_back(a.chunks, a.block_size, 0, fixed, count + meta);
    assert(fixed + chunks + (count + meta) =~= body);
    assert(a.chunks.skip(0) =~= a.chunks);
    metadata_round_trips(a.meta);
    assert(Health::numbered(a.health.number()) == a.health);
}

/// A metadata section is found where it was written.
proof fn section_reads_back(before: Seq<u8>, meta: Seq<u8>)
    requires
        meta.len() <= u32::MAX,
    ensures
        meta_at(before + bytes32(low32(meta.len())) + meta, before.len() as int) == Ok::<
            Seq<Pair>,
            DecodeError,
        >(section_pairs(meta)),
{
    let count = bytes32(low32(meta.len()));
    let body = before + count + meta;
    let end = before.len() as int;
    assert(count.len() == 4);
    assert(body.subrange(end, end + 4) =~= count);
    le32_reads_bytes32(body, end, low32(meta.len()));
    assert(body.subrange(end + 4, end + 4 + meta.len()) =~= meta);
}

/// The fixed part of a file reads back as it was written.
proof fn fixed_reads_back(a: ArchiveView, rest: Seq<u8>)
    requires
        a.disk_guid.len() == 16,
    ensures
        ({
            let b = fixed_part(a) + rest;
            &&& fixed_part(a).len() == FIXED_LEN
            &&& b.take(8) == magic()
            &&& le32(b, 8) == VERSION
            &&& le32(b, 12) == a.block_size
            &&& le64(b, 16) == a.last_block
            &&& b.subrange(24, 40) == a.disk_guid
            &&& Timestamp::at(b, 40) == a.time
            &&& b[47] == a.health.number()
            &&& le32(b, 48) == low32(a.chunks.len())
        }),
{
    reveal(fixed_part);
    let b = fixed_part(a) + rest;
    let p3 = bytes32(a.block_size);
    let p4 = bytes64(a.last_block);
    let p6 = a.time.bytes();
    let p7 = seq![a.health.number()];
    let p8 = bytes32(low32(a.chunks.len()));
    eight_parts(magic(), bytes32(VERSION), p3, p4, a.disk_guid, p6, p7, p8, rest);
    le32_reads_bytes32(b, 8, VERSION);
    le32_reads_bytes32(b, 12, a.block_size);
    le64_reads_bytes64(b, 16, a.last_block);
    a.time.reads_back(b, 40);
    assert(b.subrange(47, 48)[0] == p7[0]);
    le32_reads_bytes32(b, 48, low32(a.chunks.len()));
}

proof fn eight_parts(
    a: Seq<u8>,
    b: Seq<u8>,
    c: Seq<u8>,
    d: Seq<u8>,
    e: Seq<u8>,
    f: Seq<u8>,
    g: Seq<u8>,
    h: Seq<u8>,
    rest: Seq<u8>,
)
    requires
        a.len() == 8,
        b.len() == 4,
        c.len() == 4,
        d.len() == 8,
        e.len() == 16,
        f.len() == 7,
        g.len() == 1,
        h.len() == 4,
    ensures
        ({
            let s = a + b + c + d + e + f + g + h + rest;
            &&& (a + b + c + d + e + f + g + h).len() == 52
            &&& s.take(8) == a
            &&& s.subrange(8, 12) == b
            &&& s.subrange(12, 16) == c
            &&& s.subrange(16, 24) == d
            &&& s.subrange(24, 40) == e
            &&& s.subrange(40, 47) == f
            &&& s.subrange(47, 48) == g
            &&& s.subrange(48, 52) == h
        }),
{
    let left = a + b + c + d;
    let s = left + e + f + g + h + rest;
    assert(left.subrange(0, 8) =~= a);
    assert(left.subrange(8, 12) =~= b);
    assert(left.subrange(12, 16) =~= c);
    assert(left.subrange(16, 24) =~= d);
    assert(s.subrange(0, 24) =~= left);
    assert(s.take(8) =~= s.subrange(0, 24).subrange(0, 8));
    assert(s.subrange(8, 12) =~= s.subrange(0, 24).subrange(8, 12));
    assert(s.subrange(12, 16) =~= s.subrange(0, 24).subrange(12, 16));
    assert(s.subrange(16, 24) =~= s.subrange(0, 24).subrange(16, 24));
    assert(s.subrange(24, 40) =~= e);
    assert(s.subrange(40, 47) =~= f);
    assert(s.subrange(47, 48) =~= g);
    assert(s.subrange(48, 52) =~= h);
}

/// When a snapshot is put back, every header and the MBR are written after a
/// flush, and both entry arrays before it; the last step is a flush.
pub proof fn restored_arrays_are_durable_before_headers(a: ArchiveView)
    ensures
        ({
            let steps = restore_steps(a);
            let arrays = (if a.chunk(Role::PrimaryEntries) is Some {
                1int
            } else {
                0int
            }) + (if a.chunk(Role::BackupEntries) is Some {
                1int
            } else {
                0int
            });
            &&& steps[arrays] is Flush
            &&& steps.last() is Flush
            &&& forall|j: int|
                0 <= j < arrays ==> (#[trigger] steps[j] matches StepView::Write { what, .. } && (
                what == Role::PrimaryEntries.label() || what == Role::BackupEntries.label()))
            &&& forall|j: int|
                arrays < j < steps.len() - 1 ==> (#[trigger] steps[j] matches StepView::Write {
                    what,
                    ..
                } && (what == Role::Mbr.label() || what == Role::PrimaryHeader.label() || what
                    == Role::BackupHeader.label()))
        }),
{
}

/// A snapshot only ever goes back onto a disk of the geometry it was taken
/// from, and every section it writes lies on that disk.
pub proof fn restore_fits_the_disk(a: ArchiveView, block_size: u32, last_block: u64, i: int)
    requires
        unfit(a, block_size, last_block) is None,
        0 <= i < a.chunks.len(),
    ensures
        a.block_size == block_size,
        a.last_block == last_block,
        chunk_mismatch(a.chunks[i], block_size, last_block) is None,
{
    no_mismatch_before(a.chunks, 0, block_size, last_block, i);
}

proof fn no_mismatch_before(
    chunks: Seq<ChunkView>,
    from: int,
    block_size: u32,
    last_block: u64,
    i: int,
)
    requires
        0 <= from <= i < chunks.len(),
        first_mismatch(chunks, from, block_size, last_block) is None,
    ensures
        chunk_mismatch(chunks[i], block_size, last_block) is None,
    decreases i - from,
{
    if from < i {
        no_mismatch_before(chunks, from + 1, block_size, last_block, i);
    }
}

// --------------------------------------------------------- laws on the rest

proof fn counts_are_filters(entries: Seq<PartitionEntry>, other: Seq<PartitionEntry>, n: nat)
    requires
        n <= entries.len(),
    ensures
        used_count(entries, n) == entries.take(n as int).filter(|e: PartitionEntry| e.used()).len(),
        shared_count(entries, other, n) == entries.take(n as int).filter(
            |e: PartitionEntry|
                e.used() && exists|j: int|
                    0 <= j < other.len() && (#[trigger] other[j]).used() && other[j].unique_guid
                        == e.unique_guid,
        ).len(),
        shared_count(entries, other, n) <= used_count(entries, n) <= n,
    decreases n,
{
    reveal(Seq::filter);
    if n > 0 {
        counts_are_filters(entries, other, (n - 1) as nat);
        assert(entries.take(n as int).drop_last() =~= entries.take(n - 1));
    }
}

/// What a snapshot and a disk have in common: the geometry is both numbers,
/// a disk GUID of zeros identifies nothing, and a partition is shared if a
/// used partition of the disk has its unique GUID.
pub proof fn a_comparison_goes_by_partitions(a: ArchiveView, disk: Analysis)
    requires
        a.entry_list().len() <= usize::MAX,
    ensures
        ({
            let c = comparison(a, disk);
            let mine = a.entry_list();
            let theirs = match disk.best() {
                Some(t) => t.entries@,
                None => Seq::<PartitionEntry>::empty(),
            };
            &&& c.geometry == (a.block_size == disk.block_size && a.last_block == disk.last_block)
            &&& c.disk_guid == (disk.best() is Some && disk.best()->0.header.disk_guid.0@
                == a.disk_guid && exists|k: int| 0 <= k < 16 && #[trigger] a.disk_guid[k] != 0)
                || a.disk_guid.len() != 16
            &&& c.archive_partitions == mine.filter(|e: PartitionEntry| e.used()).len()
            &&& c.shared_partitions == mine.filter(
                |e: PartitionEntry|
                    e.used() && exists|j: int|
                        0 <= j < theirs.len() && (#[trigger] theirs[j]).used()
                            && theirs[j].unique_guid == e.unique_guid,
            ).len()
            &&& c.shared_partitions <= c.archive_partitions
        }),
{
    let mine = a.entry_list();
    counts_are_filters(mine, best_entries(disk), mine.len());
    assert(mine.take(mine.len() as int) =~= mine);
    if a.disk_guid.len() == 16 {
        assert(a.disk_guid =~= crate::bytes::zeros(16) <==> forall|k: int|
            0 <= k < 16 ==> #[trigger] a.disk_guid[k] == 0);
    }
}

/// How strongly a snapshot belongs to a disk: not at all where the geometry
/// differs, and it is that disk's own if the disk GUID is, or at least half of
/// its partitions.
pub proof fn a_disk_is_recognised_by_guid_or_partitions(c: Comparison)
    ensures
        c.conclusion() == Match::DifferentDisk <==> !c.geometry,
        c.conclusion() == Match::SameDisk <==> c.geometry && (c.disk_guid || (c.archive_partitions
            > 0 && 2 * c.shared_partitions >= c.archive_partitions)),
{
}

/// A snapshot keeps every structure of the disk under its own role: the MBR,
/// both header blocks where they stand, and each entry array that could be
/// read, from where its header says it is, or from the conventional place
/// where there is no header. It carries the geometry, the time, the metadata,
/// and what was wrong with the disk.
pub proof fn a_snapshot_keeps_every_structure(
    a: Analysis,
    time: Timestamp,
    meta: Seq<Pair>,
    main_array: Result<Seq<u8>, IoError>,
    main_header: Seq<u8>,
    secondary_array: Result<Seq<u8>, IoError>,
    secondary_header: Seq<u8>,
)
    requires
        a.block_size > 0,
    ensures
        ({
            let s = captured(
                a,
                time,
                meta,
                main_array,
                main_header,
                secondary_array,
                secondary_header,
            );
            let usual = (16383 + a.block_size) / a.block_size as int;
            &&& s.version == 2
            &&& s.block_size == a.block_size
            &&& s.last_block == a.last_block
            &&& s.time == time
            &&& s.meta == meta
            &&& s.chunk(Role::Mbr) == Some(
                ChunkView { role: Role::Mbr, lba: 0, data: a.mbr_raw@ },
            )
            &&& s.chunk(Role::PrimaryHeader) == Some(
                ChunkView {
                    role: Role::PrimaryHeader,
                    lba: 1,
                    data: match a.main {
                        Ok(t) => t.raw@,
                        Err(_) => main_header,
                    },
                },
            )
            &&& s.chunk(Role::BackupHeader) == Some(
                ChunkView {
                    role: Role::BackupHeader,
                    lba: a.last_block,
                    data: match a.secondary {
                        Ok(t) => t.raw@,
                        Err(_) => secondary_header,
                    },
                },
            )
            &&& s.chunk(Role::PrimaryEntries) == (match main_array {
                Ok(data) => Some(
                    ChunkView {
                        role: Role::PrimaryEntries,
                        lba: match a.main {
                            Ok(t) => t.header.partition_entry_lba,
                            Err(_) => 2,
                        },
                        data,
                    },
                ),
                Err(_) => None,
            })
            &&& s.chunk(Role::BackupEntries) == (match secondary_array {
                Ok(data) => Some(
                    ChunkView {
                        role: Role::BackupEntries,
                        lba: match a.secondary {
                            Ok(t) => t.header.partition_entry_lba,
                            Err(_) => if a.last_block >= usual {
                                (a.last_block - usual) as u64
                            } else {
                                0
                            },
                        },
                        data,
                    },
                ),
                Err(_) => None,
            })
            &&& a.decided() ==> {
                let both = sound(a.main) && sound(a.secondary) && a.mbr != MbrStatus::Hybrid;
                &&& s.health.sound() == both
                &&& (s.health == Health::Healthy) == (both && a.mbr == MbrStatus::Protective)
            }
            &&& s.disk_guid == if sound(a.main) {
                a.main->Ok_0.header.disk_guid.0@
            } else if sound(a.secondary) {
                a.secondary->Ok_0.header.disk_guid.0@
            } else {
                Seq::new(16, |i: int| 0u8)
            }
        }),
{
    reveal_with_fuel(chunk_from, 6);
    let bs = a.block_size as int;
    let usual = (16383 + bs) / bs;
    assert(0 <= usual <= 16383 + bs) by (nonlinear_arith)
        requires
            bs >= 1,
            usual == (16383 + bs) / bs,
    ;
}

/// A snapshot is refused for a disk exactly if their geometries differ, one of
/// its sections is empty, ragged or off the end of the disk, or it lacks a
/// GPT header to put back.
pub proof fn a_snapshot_is_refused_where_it_does_not_fit(
    a: ArchiveView,
    block_size: u32,
    last_block: u64,
)
    requires
        a.block_size > 0,
        last_block + 1 < u64::MAX,
        forall|i: int| 0 <= i < a.chunks.len() ==> (#[trigger] a.chunks[i]).data.len() <= u64::MAX,
    ensures
        unfit(a, block_size, last_block) is None <==> {
            &&& a.block_size == block_size
            &&& a.last_block == last_block
            &&& forall|i: int|
                0 <= i < a.chunks.len() ==> {
                    &&& (#[trigger] a.chunks[i]).data.len() > 0
                    &&& a.chunks[i].data.len() % block_size as nat == 0
                    &&& a.chunks[i].lba + a.chunks[i].data.len() / block_size as nat <= last_block
                        + 1
                }
            &&& a.chunk(Role::PrimaryHeader) is Some
            &&& a.chunk(Role::BackupHeader) is Some
            &&& a.chunk(Role::PrimaryHeader)->0.data.len() >= 92 || a.chunk(
                Role::BackupHeader,
            )->0.data.len() >= 92
        },
{
    if a.block_size == block_size {
        no_mismatch_at_all(a.chunks, 0, block_size, last_block);
        assert forall|i: int| 0 <= i < a.chunks.len() implies (chunk_mismatch(
            #[trigger] a.chunks[i],
            block_size,
            last_block,
        ) is None == {
            &&& a.chunks[i].data.len() > 0
            &&& a.chunks[i].data.len() % block_size as nat == 0
            &&& a.chunks[i].lba + a.chunks[i].data.len() / block_size as nat <= last_block + 1
        }) by {
            let len = a.chunks[i].data.len();
            assert(len / block_size as nat <= len) by (nonlinear_arith)
                requires
                    block_size >= 1,
            ;
        }
    }
}

proof fn no_mismatch_at_all(chunks: Seq<ChunkView>, from: int, block_size: u32, last_block: u64)
    requires
        0 <= from,
    ensures
        first_mismatch(chunks, from, block_size, last_block) is None <==> forall|i: int|
            from <= i < chunks.len() ==> chunk_mismatch(
                #[trigger] chunks[i],
                block_size,
                last_block,
            ) is None,
    decreases chunks.len() - from,
{
    if from < chunks.len() {
        no_mismatch_at_all(chunks, from + 1, block_size, last_block);
    }
}

/// Putting a snapshot back writes each of its five structures it has, once,
/// whole, and where it stood; it writes nothing else.
pub proof fn restoring_writes_every_section(a: ArchiveView, role: Role)
    ensures
        a.chunk(role) matches Some(c) ==> exists|k: int|
            0 <= k < restored_plan(a).steps.len() && (
            #[trigger] restored_plan(a).steps[k] matches StepView::Write { lba, data, .. } && lba
                == c.lba && data == c.data),
        forall|k: int|
            0 <= k < restored_plan(a).steps.len() ==> (
            #[trigger] restored_plan(a).steps[k] matches StepView::Write { lba, data, .. }
                ==> exists|i: int|
                0 <= i < a.chunks.len() && (#[trigger] a.chunks[i]).lba == lba && a.chunks[i].data
                    == data),
        restored_plan(a).steps.filter(|s: StepView| s is Write).len() == (if a.chunk(
            Role::Mbr,
        ) is Some {
            1int
        } else {
            0
        }) + (if a.chunk(Role::PrimaryEntries) is Some {
            1int
        } else {
            0
        }) + (if a.chunk(Role::PrimaryHeader) is Some {
            1int
        } else {
            0
        }) + (if a.chunk(Role::BackupEntries) is Some {
            1int
        } else {
            0
        }) + (if a.chunk(Role::BackupHeader) is Some {
            1int
        } else {
            0
        }),
{
    let p = |s: StepView| s is Write;
    let s0 = Seq::<StepView>::empty();
    reveal(Seq::filter);
    assert(s0.filter(p).len() == 0);
    let s1 = with_chunk(s0, a, Role::PrimaryEntries);
    a_section_is_one_write(s0, a, Role::PrimaryEntries);
    let s2 = with_chunk(s1, a, Role::BackupEntries);
    a_section_is_one_write(s1, a, Role::BackupEntries);
    let f = StepView::Flush {
        why: "entry arrays must be durable before the headers point at them"@,
    };
    let s3 = s2.push(f);
    assert(s3.drop_last() =~= s2);
    let s4 = with_chunk(s3, a, Role::Mbr);
    a_section_is_one_write(s3, a, Role::Mbr);
    let s5 = with_chunk(s4, a, Role::PrimaryHeader);
    a_section_is_one_write(s4, a, Role::PrimaryHeader);
    let s6 = with_chunk(s5, a, Role::BackupHeader);
    a_section_is_one_write(s5, a, Role::BackupHeader);
    let g = StepView::Flush { why: "commit headers"@ };
    let s7 = s6.push(g);
    assert(s7.drop_last() =~= s6);
    assert(restored_plan(a).steps == s7);
    assert(keeps_sections(s3, a)) by {
        assert forall|k: int| 0 <= k < s3.len() implies #[trigger] is_section(s3[k], a) by {
            if k < s2.len() {
                assert(is_section(s2[k], a));
            }
        }
    }
    assert(keeps_sections(s7, a)) by {
        assert forall|k: int| 0 <= k < s7.len() implies #[trigger] is_section(s7[k], a) by {
            if k < s6.len() {
                assert(is_section(s6[k], a));
            }
        }
    }
    assert forall|k: int| 0 <= k < s7.len() implies (
    #[trigger] s7[k] matches StepView::Write { lba, data, .. } ==> exists|i: int|
        0 <= i < a.chunks.len() && (#[trigger] a.chunks[i]).lba == lba && a.chunks[i].data
            == data) by {
        assert(is_section(s7[k], a));
    }
    if let Some(c) = a.chunk(role) {
        let at = match role {
            Role::PrimaryEntries => 0,
            Role::BackupEntries => s1.len() as int,
            Role::Mbr => s3.len() as int,
            Role::PrimaryHeader => s4.len() as int,
            Role::BackupHeader => s5.len() as int,
        };
        assert(s7[at] matches StepView::Write { lba, data, .. } && lba == c.lba && data == c.data);
    }
}

/// A step writes a section of the snapshot, or nothing.
spec fn is_section(s: StepView, a: ArchiveView) -> bool {
    s matches StepView::Write { lba, data, .. } ==> exists|i: int|
        0 <= i < a.chunks.len() && (#[trigger] a.chunks[i]).lba == lba && a.chunks[i].data == data
}

spec fn keeps_sections(steps: Seq<StepView>, a: ArchiveView) -> bool {
    forall|k: int| 0 <= k < steps.len() ==> #[trigger] is_section(steps[k], a)
}

proof fn a_section_is_one_write(steps: Seq<StepView>, a: ArchiveView, role: Role)
    ensures
        with_chunk(steps, a, role).filter(|s: StepView| s is Write).len() == steps.filter(
            |s: StepView| s is Write,
        ).len() + (if a.chunk(role) is Some {
            1int
        } else {
            0
        }),
        keeps_sections(steps, a) ==> keeps_sections(with_chunk(steps, a, role), a),
{
    reveal(Seq::filter);
    if let Some(c) = a.chunk(role) {
        let step = StepView::Write { lba: c.lba, data: c.data, what: role.label() };
        assert(steps.push(step).drop_last() =~= steps);
        chunk_is_among(a.chunks, role, 0);
        assert(is_section(step, a));
        if keeps_sections(steps, a) {
            assert forall|k: int| 0 <= k < steps.push(step).len() implies #[trigger] is_section(
                steps.push(step)[k],
                a,
            ) by {
                if k < steps.len() {
                    assert(is_section(steps[k], a));
                }
            }
        }
    }
}

proof fn chunk_is_among(chunks: Seq<ChunkView>, role: Role, from: int)
    requires
        0 <= from,
        chunk_from(chunks, role, from) is Some,
    ensures
        exists|i: int|
            from <= i < chunks.len() && #[trigger] chunks[i] == chunk_from(chunks, role, from)->0
                && chunks[i].role == role,
    decreases chunks.len() - from,
{
    if chunks[from].role != role {
        chunk_is_among(chunks, role, from + 1);
    }
}

/// The section under a role is the first of that role, and there is one
/// wherever a section has it.
pub proof fn a_section_is_found_by_its_role(a: ArchiveView, role: Role, i: int)
    requires
        0 <= i < a.chunks.len(),
        a.chunks[i].role == role,
        forall|j: int| 0 <= j < i ==> (#[trigger] a.chunks[j]).role != role,
    ensures
        a.chunk(role) == Some(a.chunks[i]),
{
    first_of_its_role(a.chunks, role, 0, i);
}

proof fn first_of_its_role(chunks: Seq<ChunkView>, role: Role, from: int, i: int)
    requires
        0 <= from <= i < chunks.len(),
        chunks[i].role == role,
        forall|j: int| from <= j < i ==> (#[trigger] chunks[j]).role != role,
    ensures
        chunk_from(chunks, role, from) == Some(chunks[i]),
    decreases i - from,
{
    if from < i {
        first_of_its_role(chunks, role, from + 1, i);
    }
}

/// Where a file keeps what a reader looks for first: `EFIGPTBK`, version 2,
/// the geometry, the disk GUID, the time, the state of the disk and the number
/// of sections; and the checksum of everything before it at the end.
pub proof fn a_file_starts_and_ends_where_readers_look(a: ArchiveView)
    requires
        a.disk_guid.len() == 16,
    ensures
        ({
            let b = sealed(archive_body(a));
            &&& b.len() >= 56
            &&& b.take(8) == seq![0x45u8, 0x46, 0x49, 0x47, 0x50, 0x54, 0x42, 0x4B]
            &&& le32(b, 8) == 2
            &&& le32(b, 12) == a.block_size
            &&& le64(b, 16) == a.last_block
            &&& b.subrange(24, 40) == a.disk_guid
            &&& b[47] == match a.health {
                Health::Healthy => 0u8,
                Health::MbrOnly => 1,
                Health::PrimaryCorrupt => 2,
                Health::BackupCorrupt => 3,
                Health::BothCorrupt => 4,
                Health::Other => 5,
            }
            &&& le32(b, 48) == a.chunks.len() % 0x1_0000_0000
            &&& le32(b, b.len() - 4) == crc32_of(b.take(b.len() - 4))
        }),
{
    let body = archive_body(a);
    let sum = bytes32(crc32_of(body));
    let b = sealed(body);
    let rest = chunk_part(a.chunks, a.block_size, a.chunks.len()) + bytes32(
        low32(meta_bytes(a.meta).len()),
    ) + meta_bytes(a.meta);
    fixed_reads_back(a, rest + sum);
    assert(b =~= fixed_part(a) + (rest + sum));
    assert(b.take(b.len() - 4) =~= body);
    assert(b.subrange(b.len() - 4, b.len() as int) =~= sum);
    le32_reads_bytes32(b, b.len() - 4, crc32_of(body));
}

/// Where a section keeps what it is: its role by number, its place, its length
/// in blocks and in bytes, each little-endian, and then its bytes.
pub proof fn a_section_is_stored_by_number(c: ChunkView, block_size: u32)
    requires
        c.data.len() <= u64::MAX,
        block_size > 0,
    ensures
        chunk_head(c, block_size).len() == 28,
        le32(chunk_head(c, block_size), 0) == match c.role {
            Role::Mbr => 1u32,
            Role::PrimaryEntries => 2,
            Role::PrimaryHeader => 3,
            Role::BackupEntries => 4,
            Role::BackupHeader => 5,
        },
        le64(chunk_head(c, block_size), 4) == c.lba,
        le64(chunk_head(c, block_size), 12) == (c.data.len() / block_size as nat) as u64,
        le64(chunk_head(c, block_size), 20) == c.data.len(),
{
    reveal(chunk_head);
    let h = chunk_head(c, block_size);
    assert(h.subrange(0, 4) =~= bytes32(c.role.number()));
    assert(h.subrange(4, 12) =~= bytes64(c.lba));
    assert(h.subrange(12, 20) =~= bytes64(whole_blocks(c.data.len(), block_size)));
    assert(h.subrange(20, 28) =~= bytes64(c.data.len() as u64));
    le32_reads_bytes32(h, 0, c.role.number());
    le64_reads_bytes64(h, 4, c.lba);
    le64_reads_bytes64(h, 12, whole_blocks(c.data.len(), block_size));
    le64_reads_bytes64(h, 20, c.data.len() as u64);
}


/// A value is looked up by its key: it is the first one stored under it, and
/// there is none exactly where the key is nowhere.
pub proof fn a_value_is_found_by_its_key(meta: Seq<Pair>, key: Seq<char>, from: int)
    requires
        0 <= from <= meta.len(),
    ensures
        meta_from(meta, key, from) is None <==> forall|i: int|
            from <= i < meta.len() ==> (#[trigger] meta[i]).0 != key,
        meta_from(meta, key, from) matches Some(value) ==> exists|i: int|
            from <= i < meta.len() && #[trigger] meta[i] == (key, value) && forall|j: int|
                from <= j < i ==> (#[trigger] meta[j]).0 != key,
    decreases meta.len() - from,
{
    if from < meta.len() {
        if meta[from].0 == key {
            assert(meta[from] == (key, meta[from].1));
        } else {
            a_value_is_found_by_its_key(meta, key, from + 1);
        }
    }
}

} // verus!
