//! Input-format validation that feeds the module's `ValidationFailed`
//! decisions. The email check is delegated to an outside validation crate;
//! its verdict is a fixed function of the characters alone.

use vstd::prelude::*;

verus! {

/// Whether the outside email check accepts these characters. The check is
/// the HTML5 valid-email-address rule: a deterministic function of the
/// string, with fixed pattern tables.
pub uninterp spec fn is_valid_email(s: Seq<char>) -> bool;

/// Relies on validator's `ValidateEmail` for `&str`: the HTML5 valid-email
/// check, deterministic in the string's characters; an empty string is
/// always rejected.
#[verifier::external_body]
pub fn check_email(s: &str) -> (r: bool)
    ensures
        r == is_valid_email(s@),
        s@.len() == 0 ==> !r,
{
    validator::ValidateEmail::validate_email(&s)
}

} // verus!
