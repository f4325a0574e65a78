//! What the plans come to on the disk itself.
//!
//! The rest of the library speaks of requests made to a device. Here a disk
//! is the bytes it holds, so that what a plan leads to can be said of the
//! whole of it: a repaired disk is a healthy one, and a restored disk holds
//! what was saved. Nothing here is executable.

use crate::backup::{
    a_comparison_goes_by_partitions, comparison, Match, a_snapshot_is_refused_where_it_does_not_fit, a_snapshot_keeps_every_structure, array_place, below_last, capture_read, captured, chunk_from, chunk_mismatch, header_block,
    header_read, restore_fits_the_disk, restore_steps, unfit, whole_blocks, with_chunk, Archive,
    ArchiveView, ChunkView, Role, Timestamp,
};
use crate::disk::{on_disk, range_read, IoError, Op};
use crate::entry::{array_holds, PartitionEntry};
use crate::header::{GptHeader, HEADER_MIN_SIZE};
use crate::mbr::{generated_mbr_is_protective, mbr_fills, protective_mbr, MbrStatus};
use crate::meta::Pair;
use crate::prevent::{
    closing_the_gap_is_safe_and_final, gap_steps, gap_verdict, lowered, Verdict as GapVerdict,
};
use crate::repair::{
    a_disk_that_was_read_can_be_planned, analysis_read, applied, assessment, blocks_needed, carried_out, completed, prefix,
    rebuilt_main_is_valid, sound, source_is_sound, table_read, usable, Analysis, StepView,
    TableView, Verdict,
};
use vstd::prelude::*;

verus! {

// ----------------------------------------------------------------- the bytes

/// The bytes of `count` blocks at `lba`.
pub open spec fn contents(img: Seq<u8>, block_size: u32, lba: int, count: int) -> Seq<u8> {
    img.subrange(lba * block_size, (lba + count) * block_size)
}

/// The disk after `data` was written at `lba`.
pub open spec fn overwritten(img: Seq<u8>, block_size: u32, lba: u64, data: Seq<u8>) -> Seq<u8> {
    let at = lba * block_size;
    img.take(at) + data + img.skip(at + data.len())
}

/// The disk after a step was carried out.
pub open spec fn stepped(img: Seq<u8>, block_size: u32, step: StepView) -> Seq<u8> {
    match step {
        StepView::Write { lba, data, .. } => overwritten(img, block_size, lba, data),
        StepView::Flush { .. } => img,
    }
}

/// The disk after these steps were carried out.
pub open spec fn image_after(img: Seq<u8>, block_size: u32, steps: Seq<StepView>) -> Seq<u8>
    decreases steps.len(),
{
    if steps.len() == 0 {
        img
    } else {
        stepped(image_after(img, block_size, steps.drop_last()), block_size, steps.last())
    }
}

/// The bytes of a disk of this geometry.
pub open spec fn is_image(img: Seq<u8>, block_size: u32, last_block: u64) -> bool {
    block_size > 0 && img.len() == (last_block + 1) * block_size
}

proof fn scaled(a: int, b: int, block_size: u32)
    requires
        0 <= a <= b,
    ensures
        0 <= a * block_size <= b * block_size,
        (a + 1) * block_size == a * block_size + block_size,
        (b - a) * block_size == b * block_size - a * block_size,
{
    assert(0 <= a * block_size <= b * block_size && (a + 1) * block_size == a * block_size
        + block_size && (b - a) * block_size == b * block_size - a * block_size)
        by (nonlinear_arith)
        requires
            0 <= a <= b,
    ;
}

proof fn one_more(img: Seq<u8>, block_size: u32, steps: Seq<StepView>, step: StepView)
    ensures
        image_after(img, block_size, steps.push(step)) == stepped(
            image_after(img, block_size, steps),
            block_size,
            step,
        ),
{
    assert(steps.push(step).drop_last() =~= steps);
}

/// Writing whole blocks changes those blocks and no others.
proof fn a_write_stays_put(
    img: Seq<u8>,
    block_size: u32,
    last_block: u64,
    lba: u64,
    count: int,
    data: Seq<u8>,
)
    requires
        is_image(img, block_size, last_block),
        count >= 0,
        data.len() == count * block_size,
        lba + count <= last_block + 1,
    ensures
        is_image(overwritten(img, block_size, lba, data), block_size, last_block),
        contents(overwritten(img, block_size, lba, data), block_size, lba as int, count) == data,
        forall|at: int, n: int|
            #![trigger contents(img, block_size, at, n)]
            0 <= at && 0 <= n && at + n <= last_block + 1 && (at + n <= lba || lba + count <= at)
                ==> contents(overwritten(img, block_size, lba, data), block_size, at, n)
                == contents(img, block_size, at, n),
{
    let new = overwritten(img, block_size, lba, data);
    let bs = block_size as int;
    scaled(lba as int, lba + count, block_size);
    scaled(lba + count, last_block + 1, block_size);
    assert((lba + count) - lba == count);
    assert(new.len() == img.len());
    assert(contents(new, block_size, lba as int, count) =~= data);
    assert forall|at: int, n: int|
        0 <= at && 0 <= n && at + n <= last_block + 1 && (at + n <= lba || lba + count <= at)
            implies contents(new, block_size, at, n) == #[trigger] contents(
        img,
        block_size,
        at,
        n,
    ) by {
        scaled(at, at + n, block_size);
        scaled(at + n, last_block + 1, block_size);
        if at + n <= lba {
            scaled(at + n, lba as int, block_size);
        } else {
            scaled(lba + count, at, block_size);
        }
        assert(contents(new, block_size, at, n) =~= contents(img, block_size, at, n));
    }
}

// ------------------------------------------------------------ reading a disk

/// What comes back for the entry array of a header.
pub open spec fn array_in(
    img: Seq<u8>,
    block_size: u32,
    last_block: u64,
    header: GptHeader,
) -> Option<Result<Seq<u8>, IoError>> {
    match header.array_blocks(block_size) {
        None => None,
        Some(blocks) => if on_disk(block_size, last_block, header.partition_entry_lba, blocks) {
            Some(
                Ok(
                    contents(
                        img,
                        block_size,
                        header.partition_entry_lba as int,
                        blocks as int,
                    ),
                ),
            )
        } else {
            Some(Err(IoError::OutOfRange))
        },
    }
}

/// What reading the table at `lba` off this disk comes to.
pub open spec fn table_in(
    img: Seq<u8>,
    block_size: u32,
    last_block: u64,
    lba: u64,
    r: Result<TableView, IoError>,
) -> bool {
    let raw = contents(img, block_size, lba as int, 1);
    if !on_disk(block_size, last_block, lba, 1) || raw.len() < HEADER_MIN_SIZE {
        r is Err
    } else {
        r matches Ok(t) && t.built_from(
            raw,
            array_in(img, block_size, last_block, t.header),
            lba,
            last_block,
            block_size,
        )
    }
}

/// This is what analysing a disk that holds these bytes comes to.
pub open spec fn analysis_in(img: Seq<u8>, a: Analysis) -> bool {
    &&& is_image(img, a.block_size, a.last_block)
    &&& a.block_size <= usize::MAX
    &&& a.last_block < u64::MAX
    &&& a.mbr_raw@ == contents(img, a.block_size, 0, 1)
    &&& a.decided()
    &&& table_in(img, a.block_size, a.last_block, 1, a.main)
    &&& table_in(img, a.block_size, a.last_block, a.last_block, a.secondary)
}

/// Every read from the `n`th request on was answered with what the disk
/// holds.
pub open spec fn answers_truly(img: Seq<u8>, block_size: u32, trace: Seq<Op>, n: int) -> bool {
    forall|i: int|
        n <= i < trace.len() ==> (#[trigger] trace[i] matches Op::Read { lba, len, reply } ==> reply
            == Ok::<Seq<u8>, IoError>(
            img.subrange(lba * block_size, lba * block_size + len),
        ))
}

proof fn table_read_off(
    img: Seq<u8>,
    before: Seq<Op>,
    after: Seq<Op>,
    lba: u64,
    last_block: u64,
    block_size: u32,
    r: Result<TableView, IoError>,
)
    requires
        table_read(before, after, lba, last_block, block_size, r),
        answers_truly(img, block_size, after, before.len() as int),
    ensures
        table_in(img, block_size, last_block, lba, r),
        after.len() >= before.len(),
        after.take(before.len() as int) == before,
{
    let n = before.len() as int;
    assert(before.take(n) =~= before);
    if on_disk(block_size, last_block, lba, 1) {
        scaled(lba as int, lba + 1, block_size);
        assert(after[n] matches Op::Read { lba: at, len, reply } && reply == Ok::<
            Seq<u8>,
            IoError,
        >(contents(img, block_size, lba as int, 1)));
        let raw = contents(img, block_size, lba as int, 1);
        if raw.len() >= HEADER_MIN_SIZE {
            let t = r->Ok_0;
            if let Some(blocks) = t.header.array_blocks(block_size) {
                let at = t.header.partition_entry_lba;
                if on_disk(block_size, last_block, at, blocks) {
                    scaled(at as int, at + blocks, block_size);
                    assert((at + blocks) - at == blocks);
                    assert(after[n + 1] matches Op::Read { lba: from, len, reply } && reply == Ok::<
                        Seq<u8>,
                        IoError,
                    >(contents(img, block_size, at as int, blocks as int)));
                }
            }
        }
    }
}

/// Analysing a device that answers every read with what the disk holds comes
/// to what the bytes of that disk come to.
pub proof fn analysis_speaks_of_the_disk(
    img: Seq<u8>,
    before: Seq<Op>,
    after: Seq<Op>,
    block_size: u32,
    last_block: u64,
    r: Result<Analysis, IoError>,
)
    requires
        is_image(img, block_size, last_block),
        last_block < u64::MAX,
        block_size <= usize::MAX,
        analysis_read(before, after, block_size, last_block, r),
        answers_truly(img, block_size, after, before.len() as int),
    ensures
        r matches Ok(a) && a.block_size == block_size && a.last_block == last_block && analysis_in(
            img,
            a,
        ),
{
    let n = before.len() as int;
    assert(on_disk(block_size, last_block, 0, 1));
    scaled(0, 1, block_size);
    assert(after[n] matches Op::Read { lba, len, reply } && reply == Ok::<Seq<u8>, IoError>(
        contents(img, block_size, 0, 1),
    )) by {
        assert(after[n] is Read);
        assert(contents(img, block_size, 0, 1) =~= img.subrange(
            0u64 * block_size,
            0u64 * block_size + block_size,
        ));
    }
    let a = r->Ok_0;
    let first = before.push(after[n]);
    let mid = choose|mid: Seq<Op>| #[trigger]
        table_read(first, mid, 1, last_block, block_size, a.main) && table_read(
            mid,
            after,
            last_block,
            last_block,
            block_size,
            a.secondary,
        );
    assert(mid.len() <= after.len() && after.take(mid.len() as int) == mid) by {
        assert(mid.take(mid.len() as int) =~= mid);
    }
    assert(answers_truly(img, block_size, mid, first.len() as int)) by {
        assert forall|i: int| first.len() <= i < mid.len() implies (
        #[trigger] mid[i] matches Op::Read { lba, len, reply } ==> reply == Ok::<
            Seq<u8>,
            IoError,
        >(img.subrange(lba * block_size, lba * block_size + len))) by {
            assert(after.take(mid.len() as int)[i] == after[i]);
            assert(mid[i] == after[i]);
        }
    }
    table_read_off(img, first, mid, 1, last_block, block_size, a.main);
    assert(answers_truly(img, block_size, after, mid.len() as int));
    table_read_off(img, mid, after, last_block, last_block, block_size, a.secondary);
}

// --------------------------------------------------------- carrying it out

/// The disk after these requests: every write that was answered well is on
/// it, and nothing else changed.
pub open spec fn replayed(img: Seq<u8>, block_size: u32, trace: Seq<Op>) -> Seq<u8>
    decreases trace.len(),
{
    if trace.len() == 0 {
        img
    } else {
        let before = replayed(img, block_size, trace.drop_last());
        match trace.last() {
            Op::Write { lba, data, reply: Ok(_) } => overwritten(before, block_size, lba, data),
            _ => before,
        }
    }
}

proof fn replaying_steps(img: Seq<u8>, block_size: u32, steps: Seq<StepView>, n: nat)
    requires
        n <= steps.len(),
    ensures
        replayed(img, block_size, completed(steps, n)) == image_after(
            img,
            block_size,
            steps.take(n as int),
        ),
    decreases n,
{
    if n == 0 {
        assert(steps.take(0) =~= Seq::<StepView>::empty());
    } else {
        let m = (n - 1) as nat;
        replaying_steps(img, block_size, steps, m);
        assert(completed(steps, n).drop_last() =~= completed(steps, m));
        assert(completed(steps, n).last() == carried_out(steps[n - 1], Ok(())));
        assert(steps.take(n as int) =~= steps.take(m as int).push(steps[n - 1]));
        one_more(img, block_size, steps.take(m as int), steps[n - 1]);
    }
}

/// A plan that was carried out leads where its steps lead: on a device that
/// keeps what it is told, the disk afterwards is the disk before with the
/// steps applied to it.
pub proof fn carrying_out_a_plan_changes_the_disk(
    img: Seq<u8>,
    block_size: u32,
    before: Seq<Op>,
    after: Seq<Op>,
    steps: Seq<StepView>,
)
    requires
        applied(before, after, steps, Ok(())),
    ensures
        replayed(img, block_size, after.skip(before.len() as int)) == image_after(
            img,
            block_size,
            steps,
        ),
{
    assert(after.skip(before.len() as int) =~= completed(steps, steps.len()));
    replaying_steps(img, block_size, steps, steps.len());
    assert(steps.take(steps.len() as int) =~= steps);
}

// ------------------------------------------------------- a repaired disk

/// The disk after a repair.
pub open spec fn repaired(img: Seq<u8>, a: Analysis) -> Seq<u8> {
    image_after(img, a.block_size, a.repair_steps())
}

/// The entry array the repair is built from reads the same from both disks.
pub open spec fn source_reads_alike(img: Seq<u8>, w: Seq<u8>, a: Analysis) -> bool {
    let src = a.secondary->Ok_0;
    let at = src.header.partition_entry_lba as int;
    let blocks = src.header.array_blocks(a.block_size)->0 as int;
    let len = src.header.array_len()->0 as int;
    prefix(contents(w, a.block_size, at, blocks), len) == prefix(
        contents(img, a.block_size, at, blocks),
        len,
    )
}

/// The entry array the repair is built from still reads the same afterwards.
pub open spec fn source_is_kept(img: Seq<u8>, a: Analysis) -> bool {
    source_reads_alike(img, repaired(img, a), a)
}

/// The secondary's entry array stands clear of what a repair writes: behind
/// the main one, and before the secondary header where that is corrected.
pub open spec fn source_stands_clear(a: Analysis) -> bool {
    let src = a.secondary->Ok_0;
    let at = src.header.partition_entry_lba;
    let blocks = src.header.array_blocks(a.block_size)->0;
    &&& at >= 2 + blocks
    &&& src.misdirected() ==> at + blocks <= a.last_block
}

/// What a repairable disk's secondary was read from.
proof fn source_in(img: Seq<u8>, a: Analysis)
    requires
        analysis_in(img, a),
        a.verdict == Verdict::MainRepairable,
    ensures
        a.secondary is Ok,
        a.rebuildable(),
        ({
            let src = a.secondary->Ok_0;
            let at = src.header.partition_entry_lba;
            let blocks = src.header.array_blocks(a.block_size)->0;
            let raw = contents(img, a.block_size, a.last_block as int, 1);
            let b = contents(img, a.block_size, at as int, blocks as int);
            &&& src.built_from(raw, Some(Ok(b)), a.last_block, a.last_block, a.block_size)
            &&& src.header.sound_fields(a.last_block, a.last_block, a.block_size)
            &&& src.valid() || src.misdirected()
            &&& on_disk(a.block_size, a.last_block, at, blocks)
            &&& b.len() == blocks * a.block_size
            &&& src.header.array_len() matches Some(len) && b.len() >= len
            &&& raw.len() == a.block_size
            &&& 2 + blocks <= src.header.first_usable_lba <= a.last_block
            &&& blocks >= 1
        }),
{
    let bs = a.block_size;
    let last = a.last_block;
    let src = a.secondary->Ok_0;
    let raw = contents(img, bs, last as int, 1);
    scaled(last as int, last + 1, bs);
    assert(raw.len() == bs);
    let array = array_in(img, bs, last, src.header);
    source_is_sound(src, raw, array, last, last, bs);
    assert(assessment(src, bs) is Ok);
    assert(src.header.array_blocks(bs) is Some) by {
        if src.header.array_blocks(bs) is None {
            assert(blocks_needed(src, bs) == u64::MAX);
        }
    }
    src.header.array_blocks_cover(bs);
    let at = src.header.partition_entry_lba;
    let blocks = src.header.array_blocks(bs)->0;
    assert(on_disk(bs, last, at, blocks)) by {
        if !on_disk(bs, last, at, blocks) {
            assert(src.entries_error == Some(IoError::OutOfRange));
        }
    }
    scaled(at as int, at + blocks, bs);
    scaled(at + blocks, last + 1, bs);
    assert((at + blocks) - at == blocks);
}

/// The sizes of what a repair writes.
proof fn repair_writes_whole_blocks(img: Seq<u8>, a: Analysis)
    requires
        analysis_in(img, a),
        a.verdict == Verdict::MainRepairable,
    ensures
        a.new_array().len() == a.secondary->Ok_0.header.array_blocks(a.block_size)->0
            * a.block_size,
        a.new_header().block_bytes(a.block_size).len() == a.block_size,
        a.corrected_secondary().block_bytes(a.block_size).len() == a.block_size,
{
    source_in(img, a);
    let bs = a.block_size;
    a.new_header().block_fills(bs);
    a.corrected_secondary().block_fills(bs);
    let blocks = a.secondary->Ok_0.header.array_blocks(bs)->0;
    scaled(0, blocks as int, bs);
}

/// What a repaired disk holds.
#[verifier::rlimit(40)]
proof fn repaired_holds(img: Seq<u8>, a: Analysis)
    requires
        analysis_in(img, a),
        a.verdict == Verdict::MainRepairable,
        a.plannable(),
    ensures
        ({
            let bs = a.block_size;
            let w = repaired(img, a);
            let src = a.secondary->Ok_0;
            let blocks = src.header.array_blocks(bs)->0 as int;
            &&& is_image(w, bs, a.last_block)
            &&& contents(w, bs, 0, 1) == if a.mbr.repairable() {
                protective_mbr(Some(a.mbr_raw@), bs, a.last_block)
            } else {
                a.mbr_raw@
            }
            &&& contents(w, bs, 1, 1) == a.new_header().block_bytes(bs)
            &&& contents(w, bs, 2, blocks) == a.new_array()
            &&& contents(w, bs, a.last_block as int, 1) == if src.misdirected() {
                a.corrected_secondary().block_bytes(bs)
            } else {
                contents(img, bs, a.last_block as int, 1)
            }
        }),
{
    let bs = a.block_size;
    let last = a.last_block;
    let src = a.secondary->Ok_0;
    source_in(img, a);
    repair_writes_whole_blocks(img, a);
    let blocks = src.header.array_blocks(bs)->0 as int;
    let mbr = protective_mbr(Some(a.mbr_raw@), bs, last);
    let head = a.new_header().block_bytes(bs);
    let other = a.corrected_secondary().block_bytes(bs);
    let one = overwritten(img, bs, 2, a.new_array());
    let two = if a.mbr.repairable() {
        overwritten(one, bs, 0, mbr)
    } else {
        one
    };
    let three = overwritten(two, bs, 1, head);
    let four = if src.misdirected() {
        overwritten(three, bs, last, other)
    } else {
        three
    };
    scaled(0, 1, bs);
    a_write_stays_put(img, bs, last, 2, blocks, a.new_array());
    if a.mbr.repairable() {
        assert(a.regenerates_mbr());
        mbr_fills(Some(a.mbr_raw@), bs, last);
        a_write_stays_put(one, bs, last, 0, 1, mbr);
    }
    a_write_stays_put(two, bs, last, 1, 1, head);
    if src.misdirected() {
        a_write_stays_put(three, bs, last, last, 1, other);
    }
    repair_leads_to(img, a, four);
    let w = repaired(img, a);
    // Each place, through the writes that leave it alone.
    assert(contents(w, bs, 0, 1) == contents(three, bs, 0, 1));
    assert(contents(three, bs, 0, 1) == contents(two, bs, 0, 1));
    assert(contents(one, bs, 0, 1) == contents(img, bs, 0, 1));
    assert(contents(w, bs, 1, 1) == contents(three, bs, 1, 1));
    assert(contents(w, bs, 2, blocks) == contents(three, bs, 2, blocks));
    assert(contents(three, bs, 2, blocks) == contents(two, bs, 2, blocks));
    assert(contents(two, bs, 2, blocks) == contents(one, bs, 2, blocks));
    assert(contents(three, bs, last as int, 1) == contents(two, bs, last as int, 1));
    assert(contents(two, bs, last as int, 1) == contents(one, bs, last as int, 1));
    assert(contents(one, bs, last as int, 1) == contents(img, bs, last as int, 1));
}

/// Carrying out a repair, write by write.
proof fn repair_leads_to(img: Seq<u8>, a: Analysis, w: Seq<u8>)
    requires
        a.verdict == Verdict::MainRepairable,
        ({
            let bs = a.block_size;
            let one = overwritten(img, bs, 2, a.new_array());
            let two = if a.mbr.repairable() {
                overwritten(
                    one,
                    bs,
                    0,
                    protective_mbr(Some(a.mbr_raw@), bs, a.last_block),
                )
            } else {
                one
            };
            let three = overwritten(two, bs, 1, a.new_header().block_bytes(bs));
            w == if a.secondary->Ok_0.misdirected() {
                overwritten(
                    three,
                    bs,
                    a.last_block,
                    a.corrected_secondary().block_bytes(bs),
                )
            } else {
                three
            }
        }),
    ensures
        repaired(img, a) == w,
{
    let bs = a.block_size;
    let steps = a.repair_steps();
    let none = Seq::<StepView>::empty();
    let k1 = none.push(steps[0]);
    one_more(img, bs, none, steps[0]);
    let k2 = k1.push(steps[1]);
    one_more(img, bs, k1, steps[1]);
    let k3 = k2.push(steps[2]);
    one_more(img, bs, k2, steps[2]);
    let k4 = k3.push(steps[3]);
    one_more(img, bs, k3, steps[3]);
    let k5 = k4.push(steps[4]);
    one_more(img, bs, k4, steps[4]);
    let k6 = k5.push(steps[5]);
    one_more(img, bs, k5, steps[5]);
    assert(steps.len() == 4 ==> steps =~= k4);
    assert(steps.len() == 5 ==> steps =~= k5);
    assert(steps.len() == 6 ==> steps =~= k6);
    assert(4 <= steps.len() <= 6);
}

/// The secondary of a repaired disk is one this library finds nothing wrong
/// with.
proof fn kept_secondary_is_valid(a: Analysis, raw: Seq<u8>, b: Seq<u8>, c: Seq<u8>, t: TableView)
    requires
        a.secondary is Ok,
        a.secondary->Ok_0.built_from(
            raw,
            Some(Ok(b)),
            a.last_block,
            a.last_block,
            a.block_size,
        ),
        a.secondary->Ok_0.valid() || a.secondary->Ok_0.misdirected(),
        a.secondary->Ok_0.header.array_len() matches Some(len) && b.len() >= len && prefix(
            b,
            len as int,
        ) == prefix(c, len as int),
        a.last_block > 1,
        t.built_from(
            if a.secondary->Ok_0.misdirected() {
                a.corrected_secondary().block_bytes(a.block_size)
            } else {
                raw
            },
            Some(Ok(c)),
            a.last_block,
            a.last_block,
            a.block_size,
        ),
    ensures
        t.valid(),
        t.header.partition_entry_lba == a.secondary->Ok_0.header.partition_entry_lba,
        t.header.array_blocks(a.block_size) == a.secondary->Ok_0.header.array_blocks(a.block_size),
        t.entries@ == a.secondary->Ok_0.entries@,
        t.header == (GptHeader {
            alternate_lba: 1,
            header_crc32: t.header.header_crc32,
            ..a.secondary->Ok_0.header
        }),
{
    let src = a.secondary->Ok_0;
    let bs = a.block_size;
    let last = a.last_block;
    source_is_sound(src, raw, Some(Ok(b)), last, last, bs);
    if src.misdirected() {
        let h = a.corrected_secondary();
        h.written_header_reads_back(bs, t.header);
        assert(t.header.sound_fields(last, last, bs));
        t.header.fields_are_clean(last, last, bs);
        assert(t.header.array_len() == src.header.array_len());
        assert(t.entries_raw@ == src.entries_raw@);
        reveal(crate::header::flagged);
        assert(t.header.crc_defects(h.block_bytes(bs)).len() == 0);
        assert(t.defects@.len() == 0);
    } else {
        t.header.parsed_from_is_unique(src.header, raw);
        assert(t.entries_raw@ == src.entries_raw@);
        assert(src.valid());
        let fields = src.header.field_defects(last, last, bs);
        assert(fields.len() <= src.defects@.len());
        src.header.fields_are_clean(last, last, bs);
    }
    assert forall|i: int| 0 <= i < t.entries@.len() implies t.entries@[i] == src.entries@[i] by {
        let stride = src.header.size_of_partition_entry;
        let slot = src.entries_raw@.subrange(i * stride, (i + 1) * stride);
        assert(t.entries@[i].parsed_from(slot));
        assert(src.entries@[i].parsed_from(slot));
        t.entries@[i].parsed_from_is_unique(src.entries@[i], slot);
    }
    assert(t.entries@ =~= src.entries@);
}

/// A disk whose main table was repaired is healthy: analysing it again finds
/// nothing wrong, and the partitions are the ones the secondary described.
///
/// The one thing this needs is that the repair does not write over the entry
/// array it was built from, see [`a_repair_keeps_its_source`].
pub proof fn a_repaired_disk_is_healthy(img: Seq<u8>, a: Analysis, after: Analysis)
    requires
        analysis_in(img, a),
        a.verdict == Verdict::MainRepairable,
        a.plannable(),
        source_is_kept(img, a),
        after.block_size == a.block_size,
        after.last_block == a.last_block,
        analysis_in(repaired(img, a), after),
    ensures
        after.verdict == Verdict::Healthy,
        after.main matches Ok(t) && t.entries@ == a.secondary->Ok_0.entries@,
        after.main->Ok_0.header == (GptHeader {
            my_lba: 1,
            alternate_lba: a.last_block,
            partition_entry_lba: 2,
            header_crc32: after.main->Ok_0.header.header_crc32,
            ..a.secondary->Ok_0.header
        }),
        after.secondary matches Ok(t) && t.entries@ == a.secondary->Ok_0.entries@,
        after.secondary->Ok_0.header == (GptHeader {
            alternate_lba: 1,
            header_crc32: after.secondary->Ok_0.header.header_crc32,
            ..a.secondary->Ok_0.header
        }),
{
    let bs = a.block_size;
    let last = a.last_block;
    let w = repaired(img, a);
    let src = a.secondary->Ok_0;
    source_in(img, a);
    repaired_holds(img, a);
    repair_writes_whole_blocks(img, a);
    let at = src.header.partition_entry_lba;
    let blocks = src.header.array_blocks(bs)->0;
    let raw = contents(img, bs, last as int, 1);
    let b = contents(img, bs, at as int, blocks as int);
    // The protective MBR.
    if a.mbr.repairable() {
        assert(a.regenerates_mbr());
        generated_mbr_is_protective(Some(a.mbr_raw@), bs, last);
        assert(after.mbr == MbrStatus::Protective);
    } else {
        assert(after.mbr == a.mbr);
    }
    // The main table.
    assert(on_disk(bs, last, 1, 1));
    let t = after.main->Ok_0;
    a.new_header().written_header_reads_back(bs, t.header);
    assert(t.header.array_blocks(bs) == src.header.array_blocks(bs));
    assert(on_disk(bs, last, 2, blocks));
    rebuilt_main_is_valid(a, raw, b, t);
    // The secondary.
    assert(on_disk(bs, last, last, 1));
    let s = after.secondary->Ok_0;
    let c = contents(w, bs, at as int, blocks as int);
    if src.misdirected() {
        a.corrected_secondary().written_header_reads_back(bs, s.header);
    } else {
        s.header.parsed_from_is_unique(src.header, raw);
    }
    assert(s.header.partition_entry_lba == at);
    assert(s.header.array_blocks(bs) == Some(blocks));
    kept_secondary_is_valid(a, raw, b, c, s);
}

// --------------------------------------------------- an interrupted repair

/// A step of the repair of this disk.
pub open spec fn is_repair_step(a: Analysis, step: StepView) -> bool {
    match step {
        StepView::Flush { .. } => true,
        StepView::Write { lba, data, .. } => {
            ||| lba == 2 && data == a.new_array()
            ||| lba == 0 && a.mbr.repairable() && data == protective_mbr(
                Some(a.mbr_raw@),
                a.block_size,
                a.last_block,
            )
            ||| lba == 1 && data == a.new_header().block_bytes(a.block_size)
            ||| lba == a.last_block && a.secondary->Ok_0.misdirected() && data
                == a.corrected_secondary().block_bytes(a.block_size)
        },
    }
}

/// What holds of the disk however far a repair of it got.
pub open spec fn midway(img: Seq<u8>, a: Analysis, w: Seq<u8>) -> bool {
    let bs = a.block_size;
    let last = a.last_block as int;
    &&& is_image(w, bs, a.last_block)
    &&& contents(w, bs, 0, 1) == contents(img, bs, 0, 1) || (a.mbr.repairable() && contents(
        w,
        bs,
        0,
        1,
    ) == protective_mbr(Some(a.mbr_raw@), bs, a.last_block))
    &&& contents(w, bs, last, 1) == contents(img, bs, last, 1) || (
    a.secondary->Ok_0.misdirected() && contents(w, bs, last, 1)
        == a.corrected_secondary().block_bytes(bs))
    &&& source_stands_clear(a) ==> {
        let h = a.secondary->Ok_0.header;
        let at = h.partition_entry_lba as int;
        let blocks = h.array_blocks(bs)->0 as int;
        contents(w, bs, at, blocks) == contents(img, bs, at, blocks)
    }
}

proof fn still_midway(img: Seq<u8>, a: Analysis, w: Seq<u8>, step: StepView)
    requires
        analysis_in(img, a),
        a.verdict == Verdict::MainRepairable,
        a.plannable(),
        midway(img, a, w),
        is_repair_step(a, step),
    ensures
        midway(img, a, stepped(w, a.block_size, step)),
{
    let bs = a.block_size;
    let last = a.last_block;
    source_in(img, a);
    repair_writes_whole_blocks(img, a);
    let blocks = a.secondary->Ok_0.header.array_blocks(bs)->0 as int;
    scaled(0, 1, bs);
    if let StepView::Write { lba, data, .. } = step {
        if lba == 2 && data == a.new_array() {
            a_write_stays_put(w, bs, last, 2, blocks, data);
            assert(contents(w, bs, last as int, 1) == contents(
                overwritten(w, bs, 2, data),
                bs,
                last as int,
                1,
            ));
        } else {
            if lba == 0 {
                assert(a.regenerates_mbr());
                mbr_fills(Some(a.mbr_raw@), bs, last);
            }
            a_write_stays_put(w, bs, last, lba, 1, data);
            if lba != last {
                assert(contents(w, bs, last as int, 1) == contents(
                    overwritten(w, bs, lba, data),
                    bs,
                    last as int,
                    1,
                ));
            }
        }
        if lba != 0 {
            assert(contents(w, bs, 0, 1) == contents(overwritten(w, bs, lba, data), bs, 0, 1));
        }
        if source_stands_clear(a) {
            let at = a.secondary->Ok_0.header.partition_entry_lba as int;
            assert(contents(w, bs, at, blocks) == contents(
                overwritten(w, bs, lba, data),
                bs,
                at,
                blocks,
            ));
        }
    }
}

proof fn midway_after(img: Seq<u8>, a: Analysis, n: nat)
    requires
        analysis_in(img, a),
        a.verdict == Verdict::MainRepairable,
        a.plannable(),
        n <= a.repair_steps().len(),
    ensures
        midway(img, a, image_after(img, a.block_size, a.repair_steps().take(n as int))),
    decreases n,
{
    let steps = a.repair_steps();
    if n == 0 {
        assert(steps.take(0) =~= Seq::<StepView>::empty());
    } else {
        let m = (n - 1) as nat;
        midway_after(img, a, m);
        let step = steps[n - 1];
        assert(steps.take(n as int) =~= steps.take(m as int).push(step));
        one_more(img, a.block_size, steps.take(m as int), step);
        assert(is_repair_step(a, step));
        still_midway(
            img,
            a,
            image_after(img, a.block_size, steps.take(m as int)),
            step,
        );
    }
}

/// A repair keeps its source, after any of its steps and after all of them,
/// wherever the secondary's entry array stands clear of what it writes, which
/// is where that array belongs.
pub proof fn a_repair_keeps_its_source(img: Seq<u8>, a: Analysis, n: nat)
    requires
        analysis_in(img, a),
        a.verdict == Verdict::MainRepairable,
        a.plannable(),
        source_stands_clear(a),
        n <= a.repair_steps().len(),
    ensures
        source_reads_alike(img, image_after(img, a.block_size, a.repair_steps().take(n as int)), a),
        source_is_kept(img, a),
{
    let steps = a.repair_steps();
    midway_after(img, a, n);
    midway_after(img, a, steps.len());
    assert(steps.take(steps.len() as int) =~= steps);
}

/// A repair that was interrupted after any of its steps has lost nothing: the
/// secondary can still be repaired from and describes the same partitions,
/// and the disk is either to be repaired again or has a sound main table.
pub proof fn an_interrupted_repair_loses_nothing(
    img: Seq<u8>,
    a: Analysis,
    n: nat,
    after: Analysis,
)
    requires
        analysis_in(img, a),
        a.verdict == Verdict::MainRepairable,
        a.plannable(),
        n <= a.repair_steps().len(),
        after.block_size == a.block_size,
        after.last_block == a.last_block,
        analysis_in(image_after(img, a.block_size, a.repair_steps().take(n as int)), after),
        source_reads_alike(img, image_after(img, a.block_size, a.repair_steps().take(n as int)), a),
    ensures
        usable(after.secondary),
        after.secondary->Ok_0.entries@ == a.secondary->Ok_0.entries@,
        after.verdict == Verdict::MainRepairable || sound(after.main),
        after.verdict != Verdict::RefusedHybridMbr,
{
    let bs = a.block_size;
    let last = a.last_block;
    let w = image_after(img, bs, a.repair_steps().take(n as int));
    let src = a.secondary->Ok_0;
    source_in(img, a);
    midway_after(img, a, n);
    repair_writes_whole_blocks(img, a);
    let at = src.header.partition_entry_lba;
    let blocks = src.header.array_blocks(bs)->0;
    let raw = contents(img, bs, last as int, 1);
    let b = contents(img, bs, at as int, blocks as int);
    let c = contents(w, bs, at as int, blocks as int);
    if contents(w, bs, 0, 1) != contents(img, bs, 0, 1) {
        assert(a.regenerates_mbr());
        generated_mbr_is_protective(Some(a.mbr_raw@), bs, last);
    }
    assert(on_disk(bs, last, last, 1));
    let t = after.secondary->Ok_0;
    let now = contents(w, bs, last as int, 1);
    if now == raw {
        t.header.parsed_from_is_unique(src.header, raw);
        assert(t.entries_raw@ == src.entries_raw@);
        assert(t.defects@ == src.defects@);
    } else {
        a.corrected_secondary().written_header_reads_back(bs, t.header);
        kept_secondary_is_valid(a, raw, b, c, t);
        assert(t.entries_raw@ == src.entries_raw@);
    }
    assert forall|i: int| 0 <= i < t.entries@.len() implies t.entries@[i] == src.entries@[i] by {
        let stride = src.header.size_of_partition_entry;
        let slot = src.entries_raw@.subrange(i * stride, (i + 1) * stride);
        assert(t.entries@[i].parsed_from(slot));
        assert(src.entries@[i].parsed_from(slot));
        t.entries@[i].parsed_from_is_unique(src.entries@[i], slot);
    }
    assert(t.entries@ =~= src.entries@);
    assert(assessment(src, bs) is Ok);
    assert(assessment(t, bs) is Ok);
}

// ---------------------------------------------------------- the other plans

/// A table that reads the same is judged the same.
proof fn same_table(
    t: TableView,
    u: TableView,
    raw: Seq<u8>,
    array: Option<Result<Seq<u8>, IoError>>,
    lba: u64,
    last_block: u64,
    block_size: u32,
)
    requires
        t.built_from(raw, array, lba, last_block, block_size),
        u.built_from(raw, array, lba, last_block, block_size),
    ensures
        u.valid() == t.valid(),
        u.header == t.header,
        u.entries_raw@ == t.entries_raw@,
{
    t.header.parsed_from_is_unique(u.header, raw);
}

/// A disk whose protective MBR was the only thing wrong has that rewritten.
proof fn rewritten_mbr(img: Seq<u8>, a: Analysis)
    requires
        is_image(img, a.block_size, a.last_block),
        a.verdict == Verdict::MbrOnly,
        a.block_size >= 512,
    ensures
        repaired(img, a) == overwritten(
            img,
            a.block_size,
            0,
            protective_mbr(Some(a.mbr_raw@), a.block_size, a.last_block),
        ),
        is_image(repaired(img, a), a.block_size, a.last_block),
{
    let bs = a.block_size;
    let mbr = protective_mbr(Some(a.mbr_raw@), bs, a.last_block);
    let none = Seq::<StepView>::empty();
    let steps = a.repair_steps();
    one_more(img, bs, none, steps[0]);
    one_more(img, bs, none.push(steps[0]), steps[1]);
    assert(steps =~= none.push(steps[0]).push(steps[1]));
    mbr_fills(Some(a.mbr_raw@), bs, a.last_block);
    scaled(0, 1, bs);
    a_write_stays_put(img, bs, a.last_block, 0, 1, mbr);
}

/// A disk whose protective MBR was the only thing wrong is healthy once it
/// was rewritten.
pub proof fn a_rewritten_mbr_makes_it_healthy(img: Seq<u8>, a: Analysis, after: Analysis)
    requires
        analysis_in(img, a),
        a.verdict == Verdict::MbrOnly,
        a.plannable(),
        after.block_size == a.block_size,
        after.last_block == a.last_block,
        analysis_in(repaired(img, a), after),
    ensures
        after.verdict == Verdict::Healthy,
{
    let bs = a.block_size;
    let last = a.last_block;
    let mbr = protective_mbr(Some(a.mbr_raw@), bs, last);
    let w = repaired(img, a);
    rewritten_mbr(img, a);
    mbr_fills(Some(a.mbr_raw@), bs, last);
    generated_mbr_is_protective(Some(a.mbr_raw@), bs, last);
    scaled(0, 1, bs);
    a_write_stays_put(img, bs, last, 0, 1, mbr);
    let m = a.main->Ok_0;
    let s = a.secondary->Ok_0;
    assert(last >= 1) by {
        if last == 0 {
            assert(!on_disk(bs, last, 1, 1));
        }
    }
    assert(contents(w, bs, 1, 1) == contents(img, bs, 1, 1));
    assert(contents(w, bs, last as int, 1) == contents(img, bs, last as int, 1));
    kept_array(img, w, a, m, 1);
    kept_array(img, w, a, s, last);
    let raw = contents(img, bs, 1, 1);
    after.main->Ok_0.header.parsed_from_is_unique(m.header, raw);
    same_table(m, after.main->Ok_0, raw, array_in(img, bs, last, m.header), 1, last, bs);
    let raw = contents(img, bs, last as int, 1);
    after.secondary->Ok_0.header.parsed_from_is_unique(s.header, raw);
    same_table(s, after.secondary->Ok_0, raw, array_in(img, bs, last, s.header), last, last, bs);
}

/// Repairing twice is repairing once: on a device that answers every read with
/// what the disk holds and keeps what it is told, a disk that was found to
/// need a write, and got it, is found healthy afterwards, with nothing left to
/// write.
///
/// Where the main table is rebuilt, the secondary's entry array has to stand
/// clear of what is written. Where only the protective MBR is wrong, nothing
/// but LBA 0 is.
pub proof fn repairing_twice_is_repairing_once(
    img: Seq<u8>,
    block_size: u32,
    last_block: u64,
    start: Seq<Op>,
    analysed: Seq<Op>,
    a: Analysis,
    written: Seq<Op>,
    end: Seq<Op>,
    again: Result<Analysis, IoError>,
)
    requires
        is_image(img, block_size, last_block),
        512 <= block_size <= usize::MAX,
        last_block < u64::MAX,
        analysis_read(start, analysed, block_size, last_block, Ok(a)),
        answers_truly(img, block_size, analysed, start.len() as int),
        a.verdict.writes(),
        a.verdict == Verdict::MainRepairable ==> source_stands_clear(a),
        applied(analysed, written, a.repair_steps(), Ok(())),
        analysis_read(written, end, block_size, last_block, again),
        answers_truly(
            replayed(img, block_size, written.skip(analysed.len() as int)),
            block_size,
            end,
            written.len() as int,
        ),
    ensures
        a.planned(),
        a.verdict == Verdict::MbrOnly ==> forall|i: int|
            0 <= i < a.repair_steps().len() ==> (
            #[trigger] a.repair_steps()[i] matches StepView::Write { lba, .. } ==> lba == 0),
        again matches Ok(b) && b.verdict == Verdict::Healthy && !b.verdict.writes()
            && !b.planned(),
{
    analysis_speaks_of_the_disk(img, start, analysed, block_size, last_block, Ok(a));
    a_disk_that_was_read_can_be_planned(start, analysed, block_size, last_block, Ok(a));
    carrying_out_a_plan_changes_the_disk(img, block_size, analysed, written, a.repair_steps());
    let w = repaired(img, a);
    if a.verdict == Verdict::MainRepairable {
        source_in(img, a);
        repaired_holds(img, a);
    } else {
        mbr_fills(Some(a.mbr_raw@), block_size, last_block);
        rewritten_mbr(img, a);
    }
    analysis_speaks_of_the_disk(w, written, end, block_size, last_block, again);
    let b = again->Ok_0;
    if a.verdict == Verdict::MainRepairable {
        a_repair_keeps_its_source(img, a, 0);
        a_repaired_disk_is_healthy(img, a, b);
    } else {
        a_rewritten_mbr_makes_it_healthy(img, a, b);
    }
}

/// An entry array never starts at LBA 0, so rewriting that block leaves it
/// alone.
proof fn kept_array(img: Seq<u8>, w: Seq<u8>, a: Analysis, t: TableView, lba: u64)
    requires
        t.valid(),
        t.built_from(
            contents(img, a.block_size, lba as int, 1),
            array_in(img, a.block_size, a.last_block, t.header),
            lba,
            a.last_block,
            a.block_size,
        ),
        forall|at: int, n: int|
            #![trigger contents(img, a.block_size, at, n)]
            1 <= at && 0 <= n && at + n <= a.last_block + 1 ==> contents(w, a.block_size, at, n)
                == contents(img, a.block_size, at, n),
    ensures
        array_in(w, a.block_size, a.last_block, t.header) == array_in(
            img,
            a.block_size,
            a.last_block,
            t.header,
        ),
{
    source_is_sound(
        t,
        contents(img, a.block_size, lba as int, 1),
        array_in(img, a.block_size, a.last_block, t.header),
        lba,
        a.last_block,
        a.block_size,
    );
    if let Some(blocks) = t.header.array_blocks(a.block_size) {
        let at = t.header.partition_entry_lba as int;
        assert(contents(w, a.block_size, at, blocks as int) == contents(
            img,
            a.block_size,
            at,
            blocks as int,
        ));
    }
}

// ------------------------------------------------------- a disk with no gap

/// Closing the gap leaves a healthy disk healthy, with the same partitions,
/// and there is then no gap left to close.
///
/// The one thing this needs is that neither entry array reaches into a
/// header block, so that both read the same afterwards.
pub proof fn closing_the_gap_keeps_the_disk_healthy(
    img: Seq<u8>,
    a: Analysis,
    current: u64,
    proposed: u64,
    after: Analysis,
)
    requires
        analysis_in(img, a),
        gap_verdict(a) == (GapVerdict::Applicable { current, proposed }),
        after.block_size == a.block_size,
        after.last_block == a.last_block,
        analysis_in(image_after(img, a.block_size, gap_steps(a, proposed)), after),
        ({
            let w = image_after(img, a.block_size, gap_steps(a, proposed));
            let m = a.main->Ok_0.header;
            let s = a.secondary->Ok_0.header;
            &&& array_in(w, a.block_size, a.last_block, m) == array_in(
                img,
                a.block_size,
                a.last_block,
                m,
            )
            &&& array_in(w, a.block_size, a.last_block, s) == array_in(
                img,
                a.block_size,
                a.last_block,
                s,
            )
        }),
    ensures
        after.verdict == a.verdict,
        gap_verdict(after) == (GapVerdict::AlreadyMinimal { current: proposed }),
        after.main matches Ok(t) && t.entries@ == a.main->Ok_0.entries@,
        after.secondary matches Ok(t) && t.entries@ == a.secondary->Ok_0.entries@,
        after.main->Ok_0.header == (GptHeader {
            first_usable_lba: proposed,
            header_crc32: after.main->Ok_0.header.header_crc32,
            ..a.main->Ok_0.header
        }),
        after.secondary->Ok_0.header == (GptHeader {
            first_usable_lba: proposed,
            header_crc32: after.secondary->Ok_0.header.header_crc32,
            ..a.secondary->Ok_0.header
        }),
{
    let bs = a.block_size;
    let last = a.last_block;
    let m = a.main->Ok_0;
    let s = a.secondary->Ok_0;
    let steps = gap_steps(a, proposed);
    let none = Seq::<StepView>::empty();
    let k1 = none.push(steps[0]);
    let k2 = k1.push(steps[1]);
    let k3 = k2.push(steps[2]);
    one_more(img, bs, none, steps[0]);
    one_more(img, bs, k1, steps[1]);
    one_more(img, bs, k2, steps[2]);
    one_more(img, bs, k3, steps[3]);
    assert(steps =~= k3.push(steps[3]));
    let first = lowered(m.header, proposed).block_bytes(bs);
    let second = lowered(s.header, proposed).block_bytes(bs);
    let one = overwritten(img, bs, 1, first);
    let w = image_after(img, bs, steps);
    assert(w == overwritten(one, bs, last, second));
    source_is_sound(
        m,
        contents(img, bs, 1, 1),
        array_in(img, bs, last, m.header),
        1,
        last,
        bs,
    );
    assert(bs >= HEADER_MIN_SIZE);
    assert(last >= 2);
    lowered(m.header, proposed).block_fills(bs);
    lowered(s.header, proposed).block_fills(bs);
    scaled(0, 1, bs);
    a_write_stays_put(img, bs, last, 1, 1, first);
    a_write_stays_put(one, bs, last, last, 1, second);
    assert(contents(w, bs, 0, 1) == contents(one, bs, 0, 1));
    assert(contents(one, bs, 0, 1) == contents(img, bs, 0, 1));
    assert(contents(w, bs, 1, 1) == contents(one, bs, 1, 1));
    let main_array = array_in(img, bs, last, m.header);
    let second_array = array_in(img, bs, last, s.header);
    assert(on_disk(bs, last, 1, 1));
    assert(on_disk(bs, last, last, 1));
    lowered(m.header, proposed).written_header_reads_back(bs, after.main->Ok_0.header);
    lowered(s.header, proposed).written_header_reads_back(bs, after.secondary->Ok_0.header);
    assert(after.main->Ok_0.header.array_blocks(bs) == m.header.array_blocks(bs));
    assert(after.secondary->Ok_0.header.array_blocks(bs) == s.header.array_blocks(bs));
    assert(array_in(w, bs, last, after.main->Ok_0.header) == array_in(w, bs, last, m.header));
    assert(array_in(w, bs, last, after.secondary->Ok_0.header) == array_in(w, bs, last, s.header));
    closing_the_gap_is_safe_and_final(
        a,
        contents(img, bs, 1, 1),
        main_array,
        contents(img, bs, last as int, 1),
        second_array,
        current,
        proposed,
        after,
    );
}

// --------------------------------------------------------- a restored disk

/// Two sections do not share a block.
pub open spec fn apart(a: ChunkView, b: ChunkView, block_size: u32) -> bool {
    a.lba + whole_blocks(a.data.len(), block_size) <= b.lba || b.lba + whole_blocks(
        b.data.len(),
        block_size,
    ) <= a.lba
}

/// No two sections of a snapshot share a block.
pub open spec fn sections_apart(a: ArchiveView) -> bool {
    forall|r: Role, q: Role|
        #![trigger a.chunk(r), a.chunk(q)]
        r != q && a.chunk(r) is Some && a.chunk(q) is Some ==> apart(
            a.chunk(r)->0,
            a.chunk(q)->0,
            a.block_size,
        )
}

/// The disk holds a section of the snapshot, if the snapshot has it.
pub open spec fn holds_section(img: Seq<u8>, a: ArchiveView, role: Role) -> bool {
    a.chunk(role) matches Some(c) ==> contents(
        img,
        a.block_size,
        c.lba as int,
        whole_blocks(c.data.len(), a.block_size) as int,
    ) == c.data
}

/// What holds of every snapshot in memory: its sections are no longer than
/// memory is.
pub open spec fn holdable(a: ArchiveView) -> bool {
    forall|i: int| 0 <= i < a.chunks.len() ==> (#[trigger] a.chunks[i]).data.len() <= usize::MAX
}

proof fn section_fits(a: ArchiveView, last_block: u64, role: Role)
    requires
        a.block_size > 0,
        holdable(a),
        last_block + 1 < u64::MAX,
        unfit(a, a.block_size, last_block) is None,
        a.chunk(role) is Some,
    ensures
        ({
            let c = a.chunk(role)->0;
            let blocks = whole_blocks(c.data.len(), a.block_size);
            &&& c.lba + blocks <= last_block + 1
            &&& c.data.len() == blocks * a.block_size
        }),
{
    let i = chunk_is_listed(a.chunks, role, 0);
    restore_fits_the_disk(a, a.block_size, last_block, i);
    let c = a.chunks[i];
    assert(chunk_mismatch(c, a.block_size, last_block) is None);
    let len = c.data.len() as int;
    let bs = a.block_size as int;
    vstd::arithmetic::div_mod::lemma_fundamental_div_mod(len, bs);
    assert(len == bs * (len / bs));
    assert(bs * (len / bs) == (len / bs) * bs) by (nonlinear_arith);
    assert(0 <= len / bs <= len) by (nonlinear_arith)
        requires
            len >= 0,
            bs >= 1,
    ;
    whole_blocks_of_whole_blocks(c.data.len(), a.block_size);
}

/// A step of the restore: the section it writes is there afterwards, and
/// those already there still are.
proof fn a_section_is_put_back(
    img: Seq<u8>,
    a: ArchiveView,
    last_block: u64,
    steps: Seq<StepView>,
    role: Role,
)
    requires
        is_image(img, a.block_size, last_block),
        a.block_size > 0,
        holdable(a),
        last_block + 1 < u64::MAX,
        unfit(a, a.block_size, last_block) is None,
        sections_apart(a),
        is_image(image_after(img, a.block_size, steps), a.block_size, last_block),
    ensures
        is_image(
            image_after(img, a.block_size, with_chunk(steps, a, role)),
            a.block_size,
            last_block,
        ),
        holds_section(image_after(img, a.block_size, with_chunk(steps, a, role)), a, role),
        forall|q: Role|
            q != role && #[trigger] holds_section(image_after(img, a.block_size, steps), a, q)
                ==> holds_section(
                image_after(img, a.block_size, with_chunk(steps, a, role)),
                a,
                q,
            ),
{
    let bs = a.block_size;
    let before = image_after(img, bs, steps);
    if let Some(c) = a.chunk(role) {
        let step = StepView::Write { lba: c.lba, data: c.data, what: role.label() };
        one_more(img, bs, steps, step);
        section_fits(a, last_block, role);
        let blocks = whole_blocks(c.data.len(), bs);
        a_write_stays_put(before, bs, last_block, c.lba, blocks as int, c.data);
        let w = image_after(img, bs, with_chunk(steps, a, role));
        assert forall|q: Role|
            q != role && #[trigger] holds_section(before, a, q) implies holds_section(w, a, q) by {
            if let Some(d) = a.chunk(q) {
                section_fits(a, last_block, q);
                assert(apart(c, d, bs));
                let n = whole_blocks(d.data.len(), bs) as int;
                assert(contents(w, bs, d.lba as int, n) == contents(before, bs, d.lba as int, n));
            }
        }
    }
}

/// A restored disk holds every section of the snapshot, byte for byte, where
/// the snapshot says it stood.
///
/// Where two sections share a block only the one written last can be there
/// whole, so the sections are taken to stand apart. A disk whose last block
/// cannot be counted past is left out too.
pub proof fn a_restored_disk_holds_the_snapshot(
    img: Seq<u8>,
    a: ArchiveView,
    last_block: u64,
    role: Role,
)
    requires
        is_image(img, a.block_size, last_block),
        holdable(a),
        last_block + 1 < u64::MAX,
        unfit(a, a.block_size, last_block) is None,
        sections_apart(a),
    ensures
        holds_section(image_after(img, a.block_size, restore_steps(a)), a, role),
{
    let bs = a.block_size;
    let s0 = Seq::<StepView>::empty();
    a_section_is_put_back(img, a, last_block, s0, Role::PrimaryEntries);
    let s1 = with_chunk(s0, a, Role::PrimaryEntries);
    a_section_is_put_back(img, a, last_block, s1, Role::BackupEntries);
    let s2 = with_chunk(s1, a, Role::BackupEntries);
    let flush = StepView::Flush {
        why: "entry arrays must be durable before the headers point at them"@,
    };
    one_more(img, bs, s2, flush);
    let s3 = s2.push(flush);
    a_section_is_put_back(img, a, last_block, s3, Role::Mbr);
    let s4 = with_chunk(s3, a, Role::Mbr);
    a_section_is_put_back(img, a, last_block, s4, Role::PrimaryHeader);
    let s5 = with_chunk(s4, a, Role::PrimaryHeader);
    a_section_is_put_back(img, a, last_block, s5, Role::BackupHeader);
    let s6 = with_chunk(s5, a, Role::BackupHeader);
    one_more(img, bs, s6, StepView::Flush { why: "commit headers"@ });
    assert(holds_section(image_after(img, bs, s1), a, Role::PrimaryEntries));
    assert(holds_section(image_after(img, bs, s2), a, Role::PrimaryEntries));
    assert(holds_section(image_after(img, bs, s4), a, Role::PrimaryEntries));
    assert(holds_section(image_after(img, bs, s5), a, Role::PrimaryEntries));
    assert(holds_section(image_after(img, bs, s4), a, Role::BackupEntries));
    assert(holds_section(image_after(img, bs, s5), a, Role::BackupEntries));
    assert(holds_section(image_after(img, bs, s5), a, Role::Mbr));
    assert(holds_section(image_after(img, bs, s6), a, Role::Mbr));
    assert(restore_steps(a) == s6.push(StepView::Flush { why: "commit headers"@ }));
}

/// What a read of whole blocks off this disk comes to.
proof fn range_read_off(
    img: Seq<u8>,
    before: Seq<Op>,
    after: Seq<Op>,
    end: Seq<Op>,
    block_size: u32,
    last_block: u64,
    lba: u64,
    count: u64,
    reply: Result<Seq<u8>, IoError>,
)
    requires
        range_read(before, after, block_size, last_block, lba, count, reply),
        after.len() <= end.len(),
        end.take(after.len() as int) == after,
        answers_truly(img, block_size, end, before.len() as int),
    ensures
        before.len() <= after.len(),
        after.take(before.len() as int) == before,
        reply matches Ok(b) ==> b == contents(img, block_size, lba as int, count as int) && b.len()
            == count * block_size,
        reply is Ok == on_disk(block_size, last_block, lba, count),
{
    assert(before.take(before.len() as int) =~= before);
    assert(after.take(before.len() as int) =~= before);
    if on_disk(block_size, last_block, lba, count) {
        let n = before.len() as int;
        assert(end.take(after.len() as int)[n] == end[n]);
        assert(end[n] == after[n]);
        scaled(lba as int, lba + count, block_size);
        assert((lba + count) - lba == count);
    }
}

/// The section a snapshot of this disk holds for a place on it.
proof fn section_of(img: Seq<u8>, block_size: u32, lba: u64, count: u64, data: Seq<u8>)
    requires
        block_size > 0,
        data.len() == count * block_size,
        data == contents(img, block_size, lba as int, count as int),
    ensures
        contents(
            img,
            block_size,
            lba as int,
            whole_blocks(data.len(), block_size) as int,
        ) == data,
{
    let n = count as int;
    let bs = block_size as int;
    assert((n * bs) / bs == n) by (nonlinear_arith)
        requires
            n >= 0,
            bs > 0,
    ;
}

/// The answers a snapshot was put together from, and what they hold.
proof fn what_was_captured(
    img: Seq<u8>,
    a: Analysis,
    before: Seq<Op>,
    after: Seq<Op>,
    time: Timestamp,
    meta: Seq<Pair>,
    archive: Archive,
) -> (read: (Result<Seq<u8>, IoError>, Seq<u8>, Result<Seq<u8>, IoError>, Seq<u8>))
    requires
        analysis_in(img, a),
        capture_read(
            before,
            after,
            a.block_size,
            a.last_block,
            a,
            time,
            meta,
            Ok(archive),
        ),
        answers_truly(img, a.block_size, after, before.len() as int),
    ensures
        ({
            let bs = a.block_size;
            let last = a.last_block;
            let (r1, h1, r3, h2) = read;
            let main_at = array_place(a.main, bs, 2);
            let other_at = array_place(a.secondary, bs, below_last(last, bs));
            &&& archive@ == captured(a, time, meta, r1, h1, r3, h2)
            &&& r1 is Ok == on_disk(bs, last, main_at.0, main_at.1)
            &&& r1 matches Ok(b) ==> b == contents(img, bs, main_at.0 as int, main_at.1 as int)
                && b.len() == main_at.1 * bs
            &&& r3 is Ok == on_disk(bs, last, other_at.0, other_at.1)
            &&& r3 matches Ok(b) ==> b == contents(img, bs, other_at.0 as int, other_at.1 as int)
                && b.len() == other_at.1 * bs
            &&& a.main is Err ==> h1 == contents(img, bs, 1, 1) && h1.len() == bs && on_disk(
                bs,
                last,
                1,
                1,
            )
            &&& a.secondary is Err ==> h2 == contents(img, bs, last as int, 1) && h2.len() == bs
        }),
{
    let bs = a.block_size;
    let last = a.last_block;
    let main_at = array_place(a.main, bs, 2);
    let other_at = array_place(a.secondary, bs, below_last(last, bs));
    let r: Result<Archive, IoError> = Ok(archive);
    let (t1, r1, t2, r2) = choose|
        t1: Seq<Op>,
        r1: Result<Seq<u8>, IoError>,
        t2: Seq<Op>,
        r2: Result<Seq<u8>, IoError>,
    |
        #![trigger range_read(before, t1, bs, last, main_at.0, main_at.1, r1),
            header_read(t1, t2, bs, last, 1, a.main, r2)]
        {
            &&& range_read(before, t1, bs, last, main_at.0, main_at.1, r1)
            &&& header_read(t1, t2, bs, last, 1, a.main, r2)
            &&& match r2 {
                Err(e) => after == t2 && r is Err && r->Err_0 == e,
                Ok(h1) => exists|
                    t3: Seq<Op>,
                    r3: Result<Seq<u8>, IoError>,
                    r4: Result<Seq<u8>, IoError>,
                |
                    #![trigger range_read(t2, t3, bs, last, other_at.0, other_at.1, r3),
                        header_read(t3, after, bs, last, last, a.secondary, r4)]
                    {
                        &&& range_read(t2, t3, bs, last, other_at.0, other_at.1, r3)
                        &&& header_read(t3, after, bs, last, last, a.secondary, r4)
                        &&& match r4 {
                            Err(e) => r is Err && r->Err_0 == e,
                            Ok(h2) => r is Ok && r->Ok_0@ == captured(
                                a,
                                time,
                                meta,
                                r1,
                                h1,
                                r3,
                                h2,
                            ),
                        }
                    },
            }
        };
    let h1 = r2->Ok_0;
    let (t3, r3, r4) = choose|
        t3: Seq<Op>,
        r3: Result<Seq<u8>, IoError>,
        r4: Result<Seq<u8>, IoError>,
    |
        #![trigger range_read(t2, t3, bs, last, other_at.0, other_at.1, r3),
            header_read(t3, after, bs, last, last, a.secondary, r4)]
        {
            &&& range_read(t2, t3, bs, last, other_at.0, other_at.1, r3)
            &&& header_read(t3, after, bs, last, last, a.secondary, r4)
            &&& match r4 {
                Err(e) => r is Err && r->Err_0 == e,
                Ok(h2) => r is Ok && r->Ok_0@ == captured(a, time, meta, r1, h1, r3, h2),
            }
        };
    let h2 = r4->Ok_0;
    grows(t3, after);
    grows(t2, t3);
    grows(t1, t2);
    grows(before, t1);
    assert(after.take(after.len() as int) =~= after);
    assert(after.take(t2.len() as int) =~= after.take(t3.len() as int).take(t2.len() as int));
    assert(after.take(t1.len() as int) =~= after.take(t2.len() as int).take(t1.len() as int));
    range_read_off(img, before, t1, after, bs, last, main_at.0, main_at.1, r1);
    range_read_off(img, t2, t3, after, bs, last, other_at.0, other_at.1, r3);
    if a.main is Err {
        range_read_off(img, t1, t2, after, bs, last, 1, 1, r2);
    }
    if a.secondary is Err {
        range_read_off(img, t3, after, after, bs, last, last, 1, r4);
    }
    scaled(0, 1, bs);
    (r1, h1, r3, h2)
}

/// A snapshot holds the disk it was taken from: every section is, byte for
/// byte, what stood there. With
/// [`a_restored_disk_holds_the_snapshot`], restoring it puts those bytes
/// back.
pub proof fn a_snapshot_holds_the_disk(
    img: Seq<u8>,
    a: Analysis,
    before: Seq<Op>,
    after: Seq<Op>,
    time: Timestamp,
    meta: Seq<Pair>,
    archive: Archive,
    role: Role,
)
    requires
        analysis_in(img, a),
        capture_read(
            before,
            after,
            a.block_size,
            a.last_block,
            a,
            time,
            meta,
            Ok(archive),
        ),
        answers_truly(img, a.block_size, after, before.len() as int),
    ensures
        holds_section(img, archive@, role),
        archive@.block_size == a.block_size,
        archive@.last_block == a.last_block,
{
    let bs = a.block_size;
    let last = a.last_block;
    let main_at = array_place(a.main, bs, 2);
    let other_at = array_place(a.secondary, bs, below_last(last, bs));
    let (r1, h1, r3, h2) = what_was_captured(img, a, before, after, time, meta, archive);
    scaled(0, 1, bs);
    scaled(1, 2, bs);
    scaled(last as int, last + 1, bs);
    section_of(img, bs, 0, 1, a.mbr_raw@);
    section_of(img, bs, last, 1, header_block(a.secondary, h2));
    assert(header_block(a.main, h1) == contents(img, bs, 1, 1));
    assert(on_disk(bs, last, 1, 1));
    scaled(2, last + 1, bs);
    section_of(img, bs, 1, 1, header_block(a.main, h1));
    if r1 is Ok {
        section_of(img, bs, main_at.0, main_at.1, r1->Ok_0);
    }
    if r3 is Ok {
        section_of(img, bs, other_at.0, other_at.1, r3->Ok_0);
    }
    reveal_with_fuel(chunk_from, 6);
}

/// A read only adds to the trace.
proof fn grows(before: Seq<Op>, after: Seq<Op>)
    requires
        after == before || exists|op: Op| after == #[trigger] before.push(op),
    ensures
        before.len() <= after.len(),
        after.take(before.len() as int) == before,
{
    assert(before.take(before.len() as int) =~= before);
    if after != before {
        let op = choose|op: Op| after == #[trigger] before.push(op);
        assert(before.push(op).take(before.len() as int) =~= before);
    }
}

/// The first section of a role is one of the sections.
proof fn chunk_is_listed(chunks: Seq<ChunkView>, role: Role, from: int) -> (i: int)
    requires
        0 <= from,
        chunk_from(chunks, role, from) is Some,
    ensures
        from <= i < chunks.len(),
        chunk_from(chunks, role, from) == Some(chunks[i]),
    decreases chunks.len() - from,
{
    if chunks[from].role == role {
        from
    } else {
        chunk_is_listed(chunks, role, from + 1)
    }
}

/// A length that is a whole number of blocks takes that many.
proof fn whole_blocks_of_whole_blocks(len: nat, block_size: u32)
    requires
        block_size > 0,
        len % block_size as nat == 0,
        len / block_size as nat <= u64::MAX,
    ensures
        whole_blocks(len, block_size) * block_size == len,
{
    vstd::arithmetic::div_mod::lemma_fundamental_div_mod(len as int, block_size as int);
    let q = len / block_size as nat;
    assert(q * block_size == len) by (nonlinear_arith)
        requires
            len == block_size as int * (len as int / block_size as int) + len as int % block_size as int,
            len % block_size as nat == 0,
            q == len / block_size as nat,
            block_size > 0,
    ;
}

/// What an entry array holds it holds too with the padding behind it.
proof fn padded_array_holds(t: TableView, data: Seq<u8>)
    requires
        t.header.array_len() matches Some(len) && len <= data.len() && t.entries_raw@ == prefix(
            data,
            len as int,
        ),
        array_holds(
            t.entries@,
            t.entries_raw@,
            t.header.number_of_partition_entries,
            t.header.size_of_partition_entry,
        ),
    ensures
        array_holds(
            t.entries@,
            data,
            t.header.number_of_partition_entries,
            t.header.size_of_partition_entry,
        ),
{
    let n = t.header.number_of_partition_entries as int;
    let s = t.header.size_of_partition_entry as int;
    let len = n * s;
    let all = data.len() as int;
    assert(len / s == n && all / s >= n) by (nonlinear_arith)
        requires
            len == n * s,
            s >= 128,
            all >= len,
    ;
    assert forall|i: int| 0 <= i < t.entries@.len() implies #[trigger] t.entries@[i].parsed_from(
        data.subrange(i * s, (i + 1) * s),
    ) by {
        assert(0 <= i * s && i * s <= (i + 1) * s && (i + 1) * s <= len) by (nonlinear_arith)
            requires
                0 <= i < n,
                len == n * s,
                s >= 128,
        ;
        assert(data.subrange(i * s, (i + 1) * s) =~= t.entries_raw@.subrange(i * s, (i + 1) * s));
    }
}

/// A snapshot of a disk whose tables are sound is whole: it has all five
/// structures, it lists the partitions of the disk, and it fits that disk.
pub proof fn a_snapshot_of_a_sound_disk_is_whole(
    img: Seq<u8>,
    a: Analysis,
    before: Seq<Op>,
    after: Seq<Op>,
    time: Timestamp,
    meta: Seq<Pair>,
    archive: Archive,
)
    requires
        analysis_in(img, a),
        capture_read(
            before,
            after,
            a.block_size,
            a.last_block,
            a,
            time,
            meta,
            Ok(archive),
        ),
        answers_truly(img, a.block_size, after, before.len() as int),
        sound(a.main),
        sound(a.secondary),
        a.main->Ok_0.header.array_len() is Some,
        a.secondary->Ok_0.header.array_len() is Some,
        a.last_block + 1 < u64::MAX,
    ensures
        forall|role: Role| #[trigger] archive@.chunk(role) is Some,
        archive@.entry_list() == a.main->Ok_0.entries@,
        unfit(archive@, a.block_size, a.last_block) is None,
        archive@.disk_guid == a.main->Ok_0.header.disk_guid.0@,
        archive@.time == time,
        archive@.meta == meta,
{
    let bs = a.block_size;
    let last = a.last_block;
    let (m, s) = (a.main->Ok_0, a.secondary->Ok_0);
    let (r1, h1, r3, h2) = what_was_captured(img, a, before, after, time, meta, archive);
    a_snapshot_keeps_every_structure(a, time, meta, r1, h1, r3, h2);
    let (raw1, raw2) = (contents(img, bs, 1, 1), contents(img, bs, last as int, 1));
    let (array1, array2) = (array_in(img, bs, last, m.header), array_in(img, bs, last, s.header));
    assert(m.built_from(raw1, array1, 1, last, bs));
    assert(s.built_from(raw2, array2, last, last, bs));
    sound_array_is_read(m, raw1, img, 1, last, bs);
    sound_array_is_read(s, raw2, img, last, last, bs);
    let v = archive@;
    assert forall|role: Role| #[trigger] v.chunk(role) is Some by {
        match role {
            Role::Mbr => {},
            Role::PrimaryEntries => {},
            Role::PrimaryHeader => {},
            Role::BackupEntries => {},
            Role::BackupHeader => {},
        }
    }
    assert(on_disk(bs, last, 1, 1));
    scaled(0, 1, bs);
    scaled(1, 2, bs);
    scaled(2, last + 1, bs);
    scaled(last as int, last + 1, bs);
    assert(raw1.len() == bs && raw2.len() == bs);
    assert(v.header_chunk() == v.chunk(Role::PrimaryHeader));
    assert(m.header.parsed_from(v.header_chunk()->0.data));
    let data = v.array_chunk()->0.data;
    assert(data == r1->Ok_0);
    padded_array_holds(m, data);
    assert(v.restores(m.entries@));
    v.restores_one_list(m.entries@, v.entry_list());
    // It fits the disk it was taken of.
    a_snapshot_is_refused_where_it_does_not_fit_for(v, bs, last);
    let at1 = array_place(a.main, bs, 2);
    let at2 = array_place(a.secondary, bs, below_last(last, bs));
    whole(1, bs);
    whole(at1.1 as int, bs);
    whole(at2.1 as int, bs);
    assert(v.chunks =~= seq![
        v.chunk(Role::Mbr)->0,
        v.chunk(Role::PrimaryEntries)->0,
        v.chunk(Role::PrimaryHeader)->0,
        v.chunk(Role::BackupEntries)->0,
        v.chunk(Role::BackupHeader)->0,
    ]);
    assert(1 * bs == bs);
    assert forall|i: int| 0 <= i < v.chunks.len() implies {
        &&& (#[trigger] v.chunks[i]).data.len() > 0
        &&& v.chunks[i].data.len() % bs as nat == 0
        &&& v.chunks[i].lba + v.chunks[i].data.len() / bs as nat <= last + 1
        &&& v.chunks[i].data.len() <= u64::MAX
    } by {
        assert(i == 0 || i == 1 || i == 2 || i == 3 || i == 4);
    }
}

proof fn whole(n: int, block_size: u32)
    requires
        n >= 1,
        block_size > 0,
    ensures
        (n * block_size) / block_size as int == n,
        (n * block_size) % block_size as int == 0,
        n * block_size > 0,
{
    let bs = block_size as int;
    assert((n * bs) / bs == n && (n * bs) % bs == 0 && n * bs > 0) by (nonlinear_arith)
        requires
            n >= 1,
            bs > 0,
    ;
}

proof fn a_snapshot_is_refused_where_it_does_not_fit_for(
    a: ArchiveView,
    block_size: u32,
    last_block: u64,
)
    requires
        a.block_size > 0,
        last_block + 1 < u64::MAX,
    ensures
        (forall|i: int| 0 <= i < a.chunks.len() ==> (#[trigger] a.chunks[i]).data.len() <= u64::MAX)
            ==> (unfit(a, block_size, last_block) is None <==> {
            &&& a.block_size == block_size
            &&& a.last_block == last_block
            &&& forall|i: int|
                0 <= i < a.chunks.len() ==> {
                    &&& (#[trigger] a.chunks[i]).data.len() > 0
                    &&& a.chunks[i].data.len() % block_size as nat == 0
                    &&& a.chunks[i].lba + a.chunks[i].data.len() / block_size as nat <= last_block
                        + 1
                }
            &&& a.chunk(Role::PrimaryHeader) is Some
            &&& a.chunk(Role::BackupHeader) is Some
            &&& a.chunk(Role::PrimaryHeader)->0.data.len() >= 92 || a.chunk(
                Role::BackupHeader,
            )->0.data.len() >= 92
        }),
{
    if forall|i: int| 0 <= i < a.chunks.len() ==> (#[trigger] a.chunks[i]).data.len() <= u64::MAX {
        a_snapshot_is_refused_where_it_does_not_fit(a, block_size, last_block);
    }
}

/// The entry array of a sound table was read, whole.
proof fn sound_array_is_read(
    t: TableView,
    raw: Seq<u8>,
    img: Seq<u8>,
    lba: u64,
    last_block: u64,
    block_size: u32,
)
    requires
        is_image(img, block_size, last_block),
        t.built_from(
            raw,
            array_in(img, block_size, last_block, t.header),
            lba,
            last_block,
            block_size,
        ),
        t.valid(),
        t.header.array_len() is Some,
    ensures
        t.header.array_blocks(block_size) is Some,
        ({
            let blocks = t.header.array_blocks(block_size)->0;
            let at = t.header.partition_entry_lba;
            let b = contents(img, block_size, at as int, blocks as int);
            &&& blocks >= 1
            &&& on_disk(block_size, last_block, at, blocks)
            &&& b.len() == blocks * block_size
            &&& t.header.array_len()->0 <= b.len()
            &&& t.entries_raw@ == prefix(b, t.header.array_len()->0 as int)
            &&& at + blocks <= last_block + 1
            &&& blocks * block_size <= usize::MAX
        }),
        HEADER_MIN_SIZE <= block_size,
{
    let array = array_in(img, block_size, last_block, t.header);
    source_is_sound(t, raw, array, lba, last_block, block_size);
    let h = t.header;
    assert(h.array_blocks(block_size) is Some);
    h.array_blocks_cover(block_size);
    let blocks = h.array_blocks(block_size)->0;
    let at = h.partition_entry_lba;
    if !on_disk(block_size, last_block, at, blocks) {
        assert(t.entries_error == Some(IoError::OutOfRange));
    }
    scaled(at as int, at + blocks, block_size);
    scaled(at + blocks, last_block + 1, block_size);
    assert((at + blocks) - at == blocks);
}

/// A table that reads the same lists the same partitions.
proof fn same_entries(
    t: TableView,
    u: TableView,
    raw: Seq<u8>,
    array: Option<Result<Seq<u8>, IoError>>,
    lba: u64,
    last_block: u64,
    block_size: u32,
)
    requires
        t.built_from(raw, array, lba, last_block, block_size),
        u.built_from(raw, array, lba, last_block, block_size),
    ensures
        u.valid() == t.valid(),
        u.header == t.header,
        u.entries@ == t.entries@,
{
    same_table(t, u, raw, array, lba, last_block, block_size);
    let stride = t.header.size_of_partition_entry;
    assert forall|i: int| 0 <= i < u.entries@.len() implies u.entries@[i] == t.entries@[i] by {
        let slot = t.entries_raw@.subrange(i * stride, (i + 1) * stride);
        assert(u.entries@[i].parsed_from(slot));
        assert(t.entries@[i].parsed_from(slot));
        u.entries@[i].parsed_from_is_unique(t.entries@[i], slot);
    }
    assert(u.entries@ =~= t.entries@);
}

/// A snapshot undoes any damage: put back onto a disk of the same geometry,
/// whatever that holds by then, it leaves a disk that is found in the state
/// the first was in, with the same headers and partitions in both tables.
///
/// `img` is the disk as it was saved and `other` as it is when the snapshot is
/// put back. The tables that were saved are sound, and no two of the five
/// structures share a block.
pub proof fn a_restored_disk_is_the_one_saved(
    img: Seq<u8>,
    a: Analysis,
    before: Seq<Op>,
    after: Seq<Op>,
    time: Timestamp,
    meta: Seq<Pair>,
    archive: Archive,
    other: Seq<u8>,
    again: Analysis,
)
    requires
        analysis_in(img, a),
        capture_read(
            before,
            after,
            a.block_size,
            a.last_block,
            a,
            time,
            meta,
            Ok(archive),
        ),
        answers_truly(img, a.block_size, after, before.len() as int),
        sound(a.main),
        sound(a.secondary),
        a.main->Ok_0.header.array_len() is Some,
        a.secondary->Ok_0.header.array_len() is Some,
        a.last_block + 1 < u64::MAX,
        sections_apart(archive@),
        is_image(other, a.block_size, a.last_block),
        again.block_size == a.block_size,
        again.last_block == a.last_block,
        analysis_in(image_after(other, a.block_size, restore_steps(archive@)), again),
    ensures
        again.mbr == a.mbr,
        again.verdict == a.verdict,
        again.main matches Ok(t) && t.valid() && t.header == a.main->Ok_0.header && t.entries@
            == a.main->Ok_0.entries@,
        again.secondary matches Ok(t) && t.valid() && t.header == a.secondary->Ok_0.header
            && t.entries@ == a.secondary->Ok_0.entries@,
{
    let bs = a.block_size;
    let last = a.last_block;
    let v = archive@;
    let w = image_after(other, bs, restore_steps(v));
    let (m, s) = (a.main->Ok_0, a.secondary->Ok_0);
    let (r1, h1, r3, h2) = what_was_captured(img, a, before, after, time, meta, archive);
    a_snapshot_of_a_sound_disk_is_whole(img, a, before, after, time, meta, archive);
    a_snapshot_keeps_every_structure(a, time, meta, r1, h1, r3, h2);
    let (raw1, raw2) = (contents(img, bs, 1, 1), contents(img, bs, last as int, 1));
    assert(m.built_from(raw1, array_in(img, bs, last, m.header), 1, last, bs));
    assert(s.built_from(raw2, array_in(img, bs, last, s.header), last, last, bs));
    sound_array_is_read(m, raw1, img, 1, last, bs);
    sound_array_is_read(s, raw2, img, last, last, bs);
    let at1 = array_place(a.main, bs, 2);
    let at2 = array_place(a.secondary, bs, below_last(last, bs));
    scaled(0, 1, bs);
    scaled(1, 2, bs);
    assert(on_disk(bs, last, 1, 1));
    assert(on_disk(bs, last, last, 1));
    scaled(2, last + 1, bs);
    scaled(last as int, last + 1, bs);
    whole(1, bs);
    whole(at1.1 as int, bs);
    whole(at2.1 as int, bs);
    assert(holdable(v)) by {
        assert(v.chunks =~= seq![
            v.chunk(Role::Mbr)->0,
            v.chunk(Role::PrimaryEntries)->0,
            v.chunk(Role::PrimaryHeader)->0,
            v.chunk(Role::BackupEntries)->0,
            v.chunk(Role::BackupHeader)->0,
        ]);
        assert forall|i: int| 0 <= i < v.chunks.len() implies (
        #[trigger] v.chunks[i]).data.len() <= usize::MAX by {
            assert(i == 0 || i == 1 || i == 2 || i == 3 || i == 4);
        }
    }
    a_restored_disk_holds_the_snapshot(other, v, last, Role::Mbr);
    a_restored_disk_holds_the_snapshot(other, v, last, Role::PrimaryHeader);
    a_restored_disk_holds_the_snapshot(other, v, last, Role::BackupHeader);
    a_restored_disk_holds_the_snapshot(other, v, last, Role::PrimaryEntries);
    a_restored_disk_holds_the_snapshot(other, v, last, Role::BackupEntries);
    assert(1 * bs == bs);
    assert(contents(w, bs, 0, 1) == a.mbr_raw@);
    assert(contents(w, bs, 1, 1) == raw1);
    assert(contents(w, bs, last as int, 1) == raw2);
    assert(contents(w, bs, at1.0 as int, at1.1 as int) == r1->Ok_0);
    assert(contents(w, bs, at2.0 as int, at2.1 as int) == r3->Ok_0);
    let (x, y) = (again.main->Ok_0, again.secondary->Ok_0);
    assert(raw1.len() == bs && raw2.len() == bs);
    x.header.parsed_from_is_unique(m.header, raw1);
    y.header.parsed_from_is_unique(s.header, raw2);
    assert(array_in(w, bs, last, m.header) == array_in(img, bs, last, m.header));
    assert(array_in(w, bs, last, s.header) == array_in(img, bs, last, s.header));
    same_entries(m, x, raw1, array_in(img, bs, last, m.header), 1, last, bs);
    same_entries(s, y, raw2, array_in(img, bs, last, s.header), last, last, bs);
}

/// A snapshot is recognised as its own disk's: compared with the disk it was
/// taken of, every partition is shared.
pub proof fn a_snapshot_belongs_to_the_disk_it_was_taken_of(
    img: Seq<u8>,
    a: Analysis,
    before: Seq<Op>,
    after: Seq<Op>,
    time: Timestamp,
    meta: Seq<Pair>,
    archive: Archive,
)
    requires
        analysis_in(img, a),
        capture_read(
            before,
            after,
            a.block_size,
            a.last_block,
            a,
            time,
            meta,
            Ok(archive),
        ),
        answers_truly(img, a.block_size, after, before.len() as int),
        sound(a.main),
        sound(a.secondary),
        a.main->Ok_0.header.array_len() is Some,
        a.secondary->Ok_0.header.array_len() is Some,
        a.last_block + 1 < u64::MAX,
        exists|i: int|
            0 <= i < a.main->Ok_0.entries@.len() && (#[trigger] a.main->Ok_0.entries@[i]).used(),
    ensures
        comparison(archive@, a).conclusion() == Match::SameDisk,
        comparison(archive@, a).shared_partitions == comparison(archive@, a).archive_partitions,
{
    a_snapshot_of_a_sound_disk_is_whole(img, a, before, after, time, meta, archive);
    let entries = a.main->Ok_0.entries@;
    let n = a.main->Ok_0.header.number_of_partition_entries;
    assert(entries.len() <= n);
    a_comparison_goes_by_partitions(archive@, a);
    let used = |e: PartitionEntry| e.used();
    let shared = |e: PartitionEntry|
        e.used() && exists|j: int|
            0 <= j < entries.len() && (#[trigger] entries[j]).used() && entries[j].unique_guid
                == e.unique_guid;
    assert forall|i: int| 0 <= i < entries.len() implies used(entries[i]) == shared(entries[i]) by {
        if entries[i].used() {
            assert(entries[i].unique_guid == entries[i].unique_guid);
        }
    }
    filtered_alike(entries, used, shared);
    let i = choose|i: int| 0 <= i < entries.len() && (#[trigger] entries[i]).used();
    entries.lemma_filter_contains(used, i);
}

proof fn filtered_alike(
    entries: Seq<PartitionEntry>,
    p: spec_fn(PartitionEntry) -> bool,
    q: spec_fn(PartitionEntry) -> bool,
)
    requires
        forall|i: int| 0 <= i < entries.len() ==> p(#[trigger] entries[i]) == q(entries[i]),
    ensures
        entries.filter(p) == entries.filter(q),
    decreases entries.len(),
{
    reveal(Seq::filter);
    if entries.len() > 0 {
        assert forall|i: int| 0 <= i < entries.drop_last().len() implies p(
            #[trigger] entries.drop_last()[i],
        ) == q(entries.drop_last()[i]) by {
            assert(entries.drop_last()[i] == entries[i]);
        }
        filtered_alike(entries.drop_last(), p, q);
    }
}

} // verus!
