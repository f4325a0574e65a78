//! What the firmware says about Secure Boot, read and never written.
//!
//! Five one-byte variables decide the whole story, and five databases hold
//! the keys themselves. The databases are measured and never read: `dbx` on
//! a machine that has taken a few years of revocation updates runs to tens
//! of kilobytes, none of which means anything to somebody diagnosing a boot
//! failure.
//!
//! The whole reason the state is worth reporting is that it explains a
//! refusal: a firmware in user mode is why a variable could not be set, and
//! why a freshly installed boot loader will not load.

use vstd::prelude::*;

verus! {

/// One of the signature databases, and how big it is.
pub struct Database {
    pub name: &'static str,
    /// Its size in bytes, `None` if it is not present at all, or the reason
    /// it could not be measured.
    pub size: Result<Option<usize>, String>,
}

/// The whole read-only picture.
pub struct State {
    /// `SecureBoot`: 1 while signature verification is being enforced.
    pub secure_boot: Option<u8>,
    /// `SetupMode`: 1 when there is no platform key and anything may be
    /// enrolled.
    pub setup_mode: Option<u8>,
    pub audit_mode: Option<u8>,
    pub deployed_mode: Option<u8>,
    /// `VendorKeys`: 0 once the keys have been modified since manufacture.
    pub vendor_keys: Option<u8>,
    pub databases: Vec<Database>,
}

/// What the two flags that matter come to.
pub open spec fn summary_text(secure_boot: Option<u8>, setup_mode: Option<u8>) -> Seq<char> {
    match secure_boot {
        None => if setup_mode is None {
            "not implemented by this firmware"@
        } else {
            "no SecureBoot variable, so not enforced"@
        },
        Some(on) => if on == 1 {
            if setup_mode == Some(1u8) {
                "enabled, but the firmware is in setup mode"@
            } else {
                "ENABLED - signatures are being enforced"@
            }
        } else if setup_mode == Some(1u8) {
            "disabled, and the firmware is in setup mode"@
        } else {
            "disabled"@
        },
    }
}

impl State {
    /// One line for the top of a report: enforcing, off, or not implemented.
    pub fn summary(&self) -> (r: &'static str)
        ensures
            r@ == summary_text(self.secure_boot, self.setup_mode),
    {
        match (self.secure_boot, self.setup_mode) {
            (None, None) => "not implemented by this firmware",
            (Some(1), Some(1)) => "enabled, but the firmware is in setup mode",
            (Some(1), _) => "ENABLED - signatures are being enforced",
            (Some(_), Some(1)) => "disabled, and the firmware is in setup mode",
            (Some(_), _) => "disabled",
            (None, Some(_)) => "no SecureBoot variable, so not enforced",
        }
    }
}

/// A one-byte variable, or `None` if it is absent or the wrong size.
///
/// Wrong size is treated as absent rather than guessed at: these are all
/// defined as a single boolean byte, and a firmware that stored something
/// else is telling us nothing we can repeat honestly.
pub fn flag(data: Option<&[u8]>) -> (r: Option<u8>)
    ensures
        match data {
            Some(b) => r == if b@.len() == 1 {
                Some(b@[0])
            } else {
                None
            },
            None => r is None,
        },
{
    match data {
        Some(b) => if b.len() == 1 {
            Some(b[0])
        } else {
            None
        },
        None => None,
    }
}

/// The databases worth measuring, and whether each lives in the image
/// security namespace rather than the global one.
///
/// PK and KEK are global; db, dbx and dbt are not. Getting that wrong
/// reports every database as missing on a machine that has all of them.
pub fn databases() -> (r: Vec<(&'static str, bool)>)
    ensures
        r@ == seq![("PK", false), ("KEK", false), ("db", true), ("dbx", true), ("dbt", true)],
{
    vec![("PK", false), ("KEK", false), ("db", true), ("dbx", true), ("dbt", true)]
}


/// Signatures are said to be enforced exactly where the firmware says so and
/// is not in setup mode.
pub proof fn enforcement_is_what_the_firmware_says(secure_boot: Option<u8>, setup_mode: Option<u8>)
    ensures
        summary_text(secure_boot, setup_mode) == "ENABLED - signatures are being enforced"@
            <==> secure_boot == Some(1u8) && setup_mode != Some(1u8),
        secure_boot == Some(1u8) && setup_mode == Some(1u8) ==> summary_text(
            secure_boot,
            setup_mode,
        ) == "enabled, but the firmware is in setup mode"@,
        secure_boot is Some && secure_boot != Some(1u8) && setup_mode != Some(1u8) ==> summary_text(
            secure_boot,
            setup_mode,
        ) == "disabled"@,
        secure_boot is Some && secure_boot != Some(1u8) && setup_mode == Some(1u8) ==> summary_text(
            secure_boot,
            setup_mode,
        ) == "disabled, and the firmware is in setup mode"@,
        secure_boot is None && setup_mode is Some ==> summary_text(secure_boot, setup_mode)
            == "no SecureBoot variable, so not enforced"@,
        secure_boot is None && setup_mode is None ==> summary_text(secure_boot, setup_mode)
            == "not implemented by this firmware"@,
{
    reveal_strlit("ENABLED - signatures are being enforced");
    reveal_strlit("enabled, but the firmware is in setup mode");
    reveal_strlit("disabled, and the firmware is in setup mode");
    reveal_strlit("disabled");
    reveal_strlit("no SecureBoot variable, so not enforced");
    reveal_strlit("not implemented by this firmware");
    let enforced = "ENABLED - signatures are being enforced"@;
    assert(enforced[0] == 'E');
    assert("enabled, but the firmware is in setup mode"@[0] == 'e');
    assert("disabled, and the firmware is in setup mode"@[0] == 'd');
    assert("disabled"@[0] == 'd');
    assert("no SecureBoot variable, so not enforced"@[0] == 'n');
    assert("not implemented by this firmware"@[0] == 'n');
}

} // verus!
