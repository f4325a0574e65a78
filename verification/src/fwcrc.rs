//! CRC-32 from the firmware, and what to do when it will not give one.
//!
//! Using the firmware's own service means the checksums that are written
//! are produced by the same code that will validate them at the next boot.
//! If the call is unavailable or fails, the built-in implementation is used
//! rather than a wrong value, and the operator is told.

use crate::crc::{crc32_of, Crc32, SoftCrc32};
use vstd::prelude::*;

verus! {

/// Whether the firmware is to be asked at all: its service rejects a zero
/// length.
pub fn asks_firmware(data: &[u8]) -> (r: bool)
    ensures
        r == (data@.len() > 0),
{
    data.len() > 0
}

/// The checksum of `data` where the firmware answered `reply`, and whether
/// the built-in implementation had to be used.
///
/// The CRC of nothing is 0, and nobody is asked for it.
pub fn settle(data: &[u8], reply: Option<u32>) -> (r: (u32, bool))
    ensures
        data@.len() == 0 ==> r == (0u32, false),
        data@.len() == 0 ==> crc32_of(data@) == 0,
        data@.len() > 0 ==> match reply {
            Some(value) => r == (value, false),
            None => r == (crc32_of(data@), true),
        },
{
    if data.len() == 0 {
        assert(!0xFFFF_FFFFu32 == 0u32) by (bit_vector);
        return (0, false);
    }
    match reply {
        Some(value) => (value, false),
        None => (SoftCrc32.crc32(data), true),
    }
}

} // verus!
