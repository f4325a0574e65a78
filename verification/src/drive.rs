//! Whatever the firmware is willing to say about a drive's identity.
//!
//! There is no protocol that simply hands over "vendor and model". What
//! there is exposes the raw identification payload of whichever transport
//! the drive is on, and what that payload contains differs per transport:
//!
//! * SCSI-like transports, which includes USB mass storage, answer with SCSI
//!   INQUIRY data: vendor at byte 8, product at 16.
//! * ATA and AHCI answer with ATA IDENTIFY DEVICE data, whose model string
//!   sits at byte 54 with every 16-bit word byte-swapped.
//! * NVMe answers with *namespace* data, which carries no model string at
//!   all. So on the Deck's own NVMe drive there is nothing to show.
//!
//! Everything here returns `None` rather than guessing: a wrong drive name
//! in a list of disks you are about to overwrite is worse than no name.

use crate::smbios::{all_printable, ascii, nul_from};
use crate::text::{content_of, trim, trimmed_end, trimmed_start};
use vstd::prelude::*;

verus! {

/// The bytes before the first NUL.
pub open spec fn before_nul(b: Seq<u8>) -> Seq<u8> {
    b.take(nul_from(b, 0))
}

/// Printable ASCII only, trimmed, and nothing at all if there is a question
/// mark or anything else in it.
pub open spec fn name_text(b: Seq<u8>) -> Seq<char> {
    let part = before_nul(b);
    if all_printable(part) && !part.contains(0x3F) {
        trimmed_end(trimmed_start(ascii(part)))
    } else {
        Seq::empty()
    }
}

/// Printable ASCII only, trimmed. Anything else means the payload was
/// misread, and the caller should show nothing rather than mojibake.
pub fn name_in(b: &[u8]) -> (r: String)
    ensures
        r@ == name_text(b@),
{
    let ghost whole = b@;
    let mut text = String::new();
    let mut i: usize = 0;
    while i < b.len() && b[i] != 0
        invariant
            i <= b@.len(),
            nul_from(b@, 0) == nul_from(b@, i as int),
            forall|j: int|
                0 <= j < i ==> 0x20 <= #[trigger] b@[j] < 0x7F && b@[j] != 0x3F,
            text@ == ascii(b@.take(i as int)),
        decreases b@.len() - i,
    {
        if b[i] < 0x20 || b[i] >= 0x7F || b[i] == 0x3F {
            proof {
                nul_is_after(b@, i + 1);
                let part = before_nul(b@);
                assert(part[i as int] == b@[i as int]);
            }
            return String::new();
        }
        text.push(b[i] as char);
        i += 1;
        assert(ascii(b@.take(i as int)) =~= ascii(b@.take(i - 1)).push(b@[i - 1] as char));
    }
    assert(nul_from(b@, i as int) == i);
    let ghost part = before_nul(b@);
    assert forall|j: int| 0 <= j < part.len() implies 0x20 <= #[trigger] part[j] < 0x7F by {
        assert(part[j] == b@[j]);
    }
    assert(!part.contains(0x3F)) by {
        if part.contains(0x3F) {
            let j = choose|j: int| 0 <= j < part.len() && part[j] == 0x3F;
            assert(b@[j] == 0x3F);
        }
    }
    trim(text.as_str())
}

proof fn nul_is_after(b: Seq<u8>, i: int)
    requires
        0 <= i <= b.len(),
    ensures
        i <= nul_from(b, i) <= b.len(),
    decreases b.len() - i,
{
    if i < b.len() && b[i] != 0 {
        nul_is_after(b, i + 1);
    }
}

/// Vendor and product, as far as there is any.
pub open spec fn scsi_text(data: Seq<u8>) -> Option<Seq<char>> {
    if data.len() < 32 {
        None
    } else {
        let vendor = name_text(data.subrange(8, 16));
        let product = name_text(data.subrange(16, 32));
        if vendor.len() == 0 && product.len() == 0 {
            None
        } else if vendor.len() == 0 {
            Some(product)
        } else if product.len() == 0 {
            Some(vendor)
        } else {
            Some(vendor + " "@ + product)
        }
    }
}

/// SCSI INQUIRY: vendor and product, space-padded ASCII.
pub fn scsi_name(data: &[u8]) -> (r: Option<String>)
    ensures
        content_of(r) == scsi_text(data@),
{
    if data.len() < 32 {
        return None;
    }
    let vendor = name_in(&data[8..16]);
    let product = name_in(&data[16..32]);
    let no_vendor = vendor.as_str().unicode_len() == 0;
    let no_product = product.as_str().unicode_len() == 0;
    if no_vendor && no_product {
        None
    } else if no_vendor {
        Some(product)
    } else if no_product {
        Some(vendor)
    } else {
        let mut s = vendor;
        s.push_str(" ");
        s.push_str(product.as_str());
        Some(s)
    }
}

/// Bytes 54 to 93, with each pair the other way round.
pub open spec fn swapped(data: Seq<u8>) -> Seq<u8> {
    Seq::new(
        40,
        |i: int|
            if i % 2 == 0 {
                data[54 + i + 1]
            } else {
                data[54 + i - 1]
            },
    )
}

/// The model of an ATA drive.
pub open spec fn ata_text(data: Seq<u8>) -> Option<Seq<char>> {
    if data.len() < 94 || name_text(swapped(data)).len() == 0 {
        None
    } else {
        Some(name_text(swapped(data)))
    }
}

/// ATA IDENTIFY DEVICE: model at word 27, i.e. bytes 54..94, with each word
/// stored big-endian relative to the rest of the structure.
pub fn ata_name(data: &[u8]) -> (r: Option<String>)
    ensures
        content_of(r) == ata_text(data@),
{
    if data.len() < 94 {
        return None;
    }
    let mut raw: Vec<u8> = Vec::new();
    let mut i: usize = 0;
    while i < 40
        invariant
            data@.len() >= 94,
            i <= 40,
            i % 2 == 0,
            raw@ == swapped(data@).take(i as int),
        decreases 40 - i,
    {
        raw.push(data[54 + i + 1]);
        raw.push(data[54 + i]);
        i += 2;
        assert(raw@ =~= swapped(data@).take(i as int));
    }
    assert(raw@ =~= swapped(data@));
    let name = name_in(raw.as_slice());
    if name.as_str().unicode_len() == 0 {
        None
    } else {
        Some(name)
    }
}

/// A payload, as far as the drive gave one.
pub open spec fn payload(data: Option<&[u8]>) -> Option<Seq<u8>> {
    match data {
        Some(b) => Some(b@),
        None => None,
    }
}

/// The first answer, or else the second.
pub open spec fn either(a: Option<Seq<char>>, b: Option<Seq<char>>) -> Option<Seq<char>> {
    if a is Some {
        a
    } else {
        b
    }
}

/// A drive's name, from its answers.
pub open spec fn model_text(
    ata_first: bool,
    inquiry: Option<Seq<u8>>,
    identify: Option<Seq<u8>>,
) -> Option<Seq<char>> {
    let scsi = match inquiry {
        Some(b) => scsi_text(b),
        None => None,
    };
    let ata = match identify {
        Some(b) => ata_text(b),
        None => None,
    };
    let name = if ata_first {
        either(ata, scsi)
    } else {
        either(scsi, ata)
    };
    match name {
        Some(n) => if n.len() >= 3 {
            name
        } else {
            None
        },
        None => None,
    }
}

/// A human-readable drive name, if this transport offers one.
///
/// The transport's own answer is tried first, then the other one: firmware
/// implementations vary, and a wrong-looking payload is filtered by the
/// printability check rather than by trusting the transport alone. A name of
/// one or two characters is noise, not an identification.
pub fn model(ata_first: bool, inquiry: Option<&[u8]>, identify: Option<&[u8]>) -> (r: Option<
    String,
>)
    ensures
        content_of(r) == model_text(ata_first, payload(inquiry), payload(identify)),
{
    let scsi = match inquiry {
        Some(b) => scsi_name(b),
        None => None,
    };
    let ata = match identify {
        Some(b) => ata_name(b),
        None => None,
    };
    let name = if ata_first {
        if ata.is_some() {
            ata
        } else {
            scsi
        }
    } else if scsi.is_some() {
        scsi
    } else {
        ata
    };
    match name {
        Some(n) => if n.as_str().unicode_len() >= 3 {
            Some(n)
        } else {
            None
        },
        None => None,
    }
}


/// The name asked for first is the one used where it is there, and a name
/// too short to be one is not shown.
pub proof fn the_first_name_there_is_shown(inquiry: Option<Seq<u8>>, identify: Option<Seq<u8>>)
    ensures
        ({
            let scsi = match inquiry {
                Some(b) => scsi_text(b),
                None => None,
            };
            let ata = match identify {
                Some(b) => ata_text(b),
                None => None,
            };
            &&& ata matches Some(name) ==> (name.len() >= 3 ==> model_text(true, inquiry, identify)
                == ata)
            &&& scsi matches Some(name) ==> (name.len() >= 3 ==> model_text(
                false,
                inquiry,
                identify,
            ) == scsi)
            &&& ata is None ==> model_text(true, inquiry, identify) == model_text(
                false,
                inquiry,
                identify,
            )
            &&& scsi is None ==> model_text(true, inquiry, identify) == model_text(
                false,
                inquiry,
                identify,
            )
            &&& model_text(true, inquiry, identify) matches Some(name) ==> name.len() >= 3
            &&& model_text(false, inquiry, identify) matches Some(name) ==> name.len() >= 3
        }),
{
}

/// Where a name stands: the vendor and the product of an inquiry one after
/// the other, and the name of an identification in words whose bytes are the
/// wrong way round.
pub proof fn a_name_is_read_from_its_place(data: Seq<u8>, i: int)
    ensures
        data.len() < 32 ==> scsi_text(data) is None,
        data.len() >= 32 ==> ({
            let vendor = name_text(data.subrange(8, 16));
            let product = name_text(data.subrange(16, 32));
            &&& vendor.len() > 0 && product.len() > 0 ==> scsi_text(data) == Some(
                vendor + " "@ + product,
            )
            &&& vendor.len() > 0 && product.len() == 0 ==> scsi_text(data) == Some(vendor)
            &&& vendor.len() == 0 && product.len() > 0 ==> scsi_text(data) == Some(product)
            &&& vendor.len() == 0 && product.len() == 0 ==> scsi_text(data) is None
        }),
        data.len() < 94 ==> ata_text(data) is None,
        ata_text(data) matches Some(name) ==> name == name_text(swapped(data)) && name.len() > 0,
        swapped(data).len() == 40,
        0 <= i < 20 ==> swapped(data)[2 * i] == data[55 + 2 * i] && swapped(data)[2 * i + 1]
            == data[54 + 2 * i],
{
}

/// A name that could not have been meant as one is none at all: a byte that
/// cannot be printed, or a question mark, before the first NUL.
pub proof fn an_unprintable_name_is_none(b: Seq<u8>, i: int)
    requires
        0 <= i < b.len(),
        forall|j: int| 0 <= j <= i ==> b[j] != 0,
        !(0x20 <= b[i] < 0x7F) || b[i] == 0x3F,
    ensures
        name_text(b).len() == 0,
{
    nul_comes_after(b, 0, i);
    let part = before_nul(b);
    assert(part[i] == b[i]);
    if b[i] == 0x3F {
        assert(part.contains(0x3F));
    }
}

proof fn nul_comes_after(b: Seq<u8>, from: int, i: int)
    requires
        0 <= from <= i < b.len(),
        forall|j: int| from <= j <= i ==> b[j] != 0,
    ensures
        i < nul_from(b, from) <= b.len(),
    decreases i - from,
{
    if from < i {
        nul_comes_after(b, from + 1, i);
    } else {
        nul_is_after(b, from + 1);
    }
}

} // verus!
