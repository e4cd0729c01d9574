//! The fixed message prefixes used in diagnostics.
//!
//! These return the plain prefix text; whether a caller colors them for a
//! terminal is presentation, decided outside the library.

use vstd::prelude::*;
use vstd::string::StringExecFns;

verus! {

/// Returns the INFO prefix.
pub fn info_msg() -> (r: String)
    ensures
        r@ == "INFO (inkjet):"@,
{
    String::from_str("INFO (inkjet):")
}

/// Returns the WARNING prefix.
pub fn warn_msg() -> (r: String)
    ensures
        r@ == "WARNING (inkjet):"@,
{
    String::from_str("WARNING (inkjet):")
}

/// Returns the ERROR prefix.
pub fn error_msg() -> (r: String)
    ensures
        r@ == "ERROR (inkjet):"@,
{
    String::from_str("ERROR (inkjet):")
}

/// Returns the INVALID prefix.
pub fn invalid_msg() -> (r: String)
    ensures
        r@ == "INVALID:"@,
{
    String::from_str("INVALID:")
}

} // verus!
