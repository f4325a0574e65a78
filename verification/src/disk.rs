//! Block I/O abstraction.
//!
//! This library never talks to firmware. The UEFI application implements
//! [`BlockDevice`] over `EFI_BLOCK_IO_PROTOCOL`; [`crate::memdisk`] implements
//! it over memory. That is the whole reason the repair logic can be exercised
//! on a desktop.

use crate::bytes::put_zeros;
use vstd::prelude::*;

verus! {

#[derive(Clone, Copy, PartialEq, Eq, Structural, Debug)]
pub enum IoError {
    /// The request runs past the end of the device.
    OutOfRange,
    /// The buffer is not a whole number of blocks.
    Unaligned,
    /// The device reported a failure.
    DeviceError,
    /// The device is not writable.
    ReadOnly,
}

impl IoError {
    /// What the operator is told.
    pub open spec fn message(self) -> Seq<char> {
        match self {
            IoError::OutOfRange => "request past end of device"@,
            IoError::Unaligned => "buffer is not a whole number of blocks"@,
            IoError::DeviceError => "device error"@,
            IoError::ReadOnly => "device is not writable"@,
        }
    }

    /// What the operator is told.
    pub fn to_text(&self) -> (r: &'static str)
        ensures
            r@ == self.message(),
    {
        match self {
            IoError::OutOfRange => "request past end of device",
            IoError::Unaligned => "buffer is not a whole number of blocks",
            IoError::DeviceError => "device error",
            IoError::ReadOnly => "device is not writable",
        }
    }
}

/// One request a device was given, and how it answered.
#[allow(inconsistent_fields)]
pub enum Op {
    Read { lba: u64, len: nat, reply: Result<Seq<u8>, IoError> },
    Write { lba: u64, data: Seq<u8>, reply: Result<(), IoError> },
    Flush { reply: Result<(), IoError> },
}

/// A disk.
///
/// Nothing is promised about whether a request succeeds or what a read
/// returns. What is promised is bookkeeping: `trace` lists the requests the
/// device was given, in order, with the answer each one got. It is what
/// lets a caller of this trait say exactly what it asked for.
///
/// The three specification functions have a default body so that a device
/// outside verified code needs none. A verified device defines all three: no
/// device can meet the contracts below with the defaults.
pub trait BlockDevice {
    /// The size of a block.
    open spec fn blocks_of(&self) -> u32 {
        arbitrary()
    }

    /// The last block there is.
    open spec fn last_of(&self) -> u64 {
        arbitrary()
    }

    /// Every request so far, and how it was answered.
    open spec fn trace(&self) -> Seq<Op> {
        arbitrary()
    }

    fn block_size(&self) -> (r: u32)
        ensures
            r == self.blocks_of(),
    ;

    /// LBA of the last addressable block, i.e. `Media->LastBlock`. The
    /// device therefore has `last_block + 1` blocks.
    fn last_block(&self) -> (r: u64)
        ensures
            r == self.last_of(),
    ;

    fn read_blocks(&mut self, lba: u64, buf: &mut [u8]) -> (r: Result<(), IoError>)
        ensures
            final(buf)@.len() == old(buf)@.len(),
            final(self).trace() == old(self).trace().push(
                Op::Read {
                    lba,
                    len: old(buf)@.len(),
                    reply: match r {
                        Ok(_) => Ok(final(buf)@),
                        Err(e) => Err(e),
                    },
                },
            ),
    ;

    fn write_blocks(&mut self, lba: u64, buf: &[u8]) -> (r: Result<(), IoError>)
        ensures
            final(self).trace() == old(self).trace().push(Op::Write { lba, data: buf@, reply: r }),
    ;

    fn flush(&mut self) -> (r: Result<(), IoError>)
        ensures
            final(self).trace() == old(self).trace().push(Op::Flush { reply: r }),
    ;
}

/// Why a device cannot be used.
#[derive(Clone, Copy, PartialEq, Eq, Structural, Debug)]
pub enum Unusable {
    NoMedia,
    /// Not a block size a disk can have.
    BlockSize,
    /// The device wants its buffers aligned more strictly than they are.
    Alignment,
}

impl Unusable {
    /// What the operator is told.
    pub open spec fn message(self) -> Seq<char> {
        match self {
            Unusable::NoMedia => "no media present"@,
            Unusable::BlockSize => "implausible block size"@,
            Unusable::Alignment => "device requires stricter buffer alignment than we provide"@,
        }
    }

    /// What the operator is told.
    pub fn to_text(&self) -> (r: &'static str)
        ensures
            r@ == self.message(),
    {
        match self {
            Unusable::NoMedia => "no media present",
            Unusable::BlockSize => "implausible block size",
            Unusable::Alignment => "device requires stricter buffer alignment than we provide",
        }
    }
}

/// What is wrong with a device, if anything.
pub open spec fn unusable(present: bool, block_size: u32, io_align: u32) -> Option<Unusable> {
    if !present {
        Some(Unusable::NoMedia)
    } else if block_size < 512 || block_size % 512 != 0 || block_size > 65536 {
        Some(Unusable::BlockSize)
    } else if io_align > 8 {
        Some(Unusable::Alignment)
    } else {
        None
    }
}

/// Whether a device can be used at all.
///
/// Buffers come from an allocator that aligns to eight bytes. A device
/// demanding more than that would need bounce buffers, so it is refused
/// rather than handed a misaligned pointer.
pub fn check_media(present: bool, block_size: u32, io_align: u32) -> (r: Result<(), Unusable>)
    ensures
        match r {
            Ok(_) => unusable(present, block_size, io_align) is None,
            Err(e) => unusable(present, block_size, io_align) == Some(e),
        },
{
    if !present {
        return Err(Unusable::NoMedia);
    }
    if block_size < 512 || block_size % 512 != 0 || block_size > 65536 {
        return Err(Unusable::BlockSize);
    }
    if io_align > 8 {
        return Err(Unusable::Alignment);
    }
    Ok(())
}

/// Whether a transfer may be handed to a device: only to one that can be
/// written if it is a write, and only in whole blocks.
pub fn check_transfer(len: usize, block_size: u32, writing: bool, read_only: bool) -> (r: Result<
    (),
    IoError,
>)
    requires
        block_size > 0,
    ensures
        r == if writing && read_only {
            Err::<(), IoError>(IoError::ReadOnly)
        } else if len % block_size as usize != 0 {
            Err::<(), IoError>(IoError::Unaligned)
        } else {
            Ok::<(), IoError>(())
        },
{
    if writing && read_only {
        return Err(IoError::ReadOnly);
    }
    if len % block_size as usize != 0 {
        return Err(IoError::Unaligned);
    }
    Ok(())
}

/// What reading blocks came back with, as a value.
pub open spec fn reply_of(r: Result<Vec<u8>, IoError>) -> Result<Seq<u8>, IoError> {
    match r {
        Ok(v) => Ok(v@),
        Err(e) => Err(e),
    }
}

/// Whether `count` blocks at `lba` lie on a disk of this geometry, and can
/// be held in memory.
pub open spec fn on_disk(block_size: u32, last_block: u64, lba: u64, count: u64) -> bool {
    &&& count * block_size <= usize::MAX
    &&& lba + count <= u64::MAX
    &&& lba + count <= last_block + 1
}

/// What asking for `count` blocks at `lba` does: a request that lies on the
/// disk reaches the device once, and its answer is the result; one that does
/// not is refused and reaches nothing.
pub open spec fn range_read(
    before: Seq<Op>,
    after: Seq<Op>,
    block_size: u32,
    last_block: u64,
    lba: u64,
    count: u64,
    reply: Result<Seq<u8>, IoError>,
) -> bool {
    if on_disk(block_size, last_block, lba, count) {
        &&& after == before.push(Op::Read { lba, len: (count * block_size) as nat, reply })
        &&& reply matches Ok(b) ==> b.len() == count * block_size
    } else {
        after == before && reply == Err::<Seq<u8>, IoError>(IoError::OutOfRange)
    }
}

/// Read `count` blocks starting at `lba` into a fresh buffer.
///
/// A request that cannot lie on the disk is refused before anything is
/// allocated, so a corrupt block count cannot make us reserve an absurd
/// buffer. Every other request reaches the device, once.
pub fn read_lbas<D: BlockDevice + ?Sized>(dev: &mut D, lba: u64, count: u64) -> (r: Result<
    Vec<u8>,
    IoError,
>)
    ensures
        range_read(
            old(dev).trace(),
            final(dev).trace(),
            old(dev).blocks_of(),
            old(dev).last_of(),
            lba,
            count,
            reply_of(r),
        ),
{
    let block_size: u32 = dev.block_size();
    let last_block: u64 = dev.last_block();
    read_range(dev, block_size, last_block, lba, count)
}

/// [`read_lbas`] on a disk whose geometry is already known.
pub(crate) fn read_range<D: BlockDevice + ?Sized>(
    dev: &mut D,
    block_size: u32,
    last_block: u64,
    lba: u64,
    count: u64,
) -> (r: Result<Vec<u8>, IoError>)
    ensures
        range_read(
            old(dev).trace(),
            final(dev).trace(),
            block_size,
            last_block,
            lba,
            count,
            reply_of(r),
        ),
{
    let len: u64 = match count.checked_mul(block_size as u64) {
        Some(len) => len,
        None => return Err(IoError::OutOfRange),
    };
    if len > usize::MAX as u64 {
        return Err(IoError::OutOfRange);
    }
    let end: u64 = match lba.checked_add(count) {
        Some(end) => end,
        None => return Err(IoError::OutOfRange),
    };
    if end > last_block.saturating_add(1) {
        return Err(IoError::OutOfRange);
    }
    let mut buf: Vec<u8> = Vec::new();
    put_zeros(&mut buf, len as usize);
    match dev.read_blocks(lba, buf.as_mut_slice()) {
        Ok(_) => Ok(buf),
        Err(e) => Err(e),
    }
}


/// A device is used exactly if it has media in it, its blocks are a whole
/// number of sectors of a plausible size, and it asks for no stricter
/// alignment than the buffers have.
pub proof fn a_device_is_used_if_its_media_are_plausible(
    present: bool,
    block_size: u32,
    io_align: u32,
)
    ensures
        unusable(present, block_size, io_align) is None <==> present && 512 <= block_size <= 65536
            && block_size % 512 == 0 && io_align <= 8,
        !present ==> unusable(present, block_size, io_align) == Some(Unusable::NoMedia),
        present && io_align <= 8 ==> (unusable(present, block_size, io_align) is Some
            ==> unusable(present, block_size, io_align) == Some(Unusable::BlockSize)),
        present && 512 <= block_size <= 65536 && block_size % 512 == 0 && io_align > 8 ==> unusable(
            present,
            block_size,
            io_align,
        ) == Some(Unusable::Alignment),
{
}

} // verus!
