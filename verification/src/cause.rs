//! The failures of the standard library's number conversions, as far as a
//! failure report needs them: whether two are the same, and how they print.

use vstd::prelude::*;

verus! {

/// `core::num::ParseIntError`, carried as it is and never looked into.
#[verifier::external_type_specification]
#[verifier::external_body]
pub struct ExParseIntError(core::num::ParseIntError);

/// `core::num::ParseFloatError`, carried as it is and never looked into.
#[verifier::external_type_specification]
#[verifier::external_body]
pub struct ExParseFloatError(core::num::ParseFloatError);

/// A clone of a `core::num::ParseIntError` is the same value.
pub assume_specification[ <core::num::ParseIntError as Clone>::clone ](
    cause: &core::num::ParseIntError,
) -> (r: core::num::ParseIntError)
    ensures
        r == *cause,
;

/// A clone of a `core::num::ParseFloatError` is the same value.
pub assume_specification[ <core::num::ParseFloatError as Clone>::clone ](
    cause: &core::num::ParseFloatError,
) -> (r: core::num::ParseFloatError)
    ensures
        r == *cause,
;

/// The text that `{:?}` prints for a failed integer conversion.
pub uninterp spec fn int_error_debug(cause: core::num::ParseIntError) -> Seq<char>;

/// The text that `{:?}` prints for a failed float conversion.
pub uninterp spec fn float_error_debug(cause: core::num::ParseFloatError) -> Seq<char>;

/// Formats a `core::num::ParseIntError` with `{:?}`. Nothing is proved of the
/// text but that it is the one the standard library prints for this value.
#[verifier::external_body]
pub(crate) fn int_error_text(cause: &core::num::ParseIntError) -> (s: String)
    ensures
        s@ == int_error_debug(*cause),
{
    format!("{:?}", cause)
}

/// Formats a `core::num::ParseFloatError` with `{:?}`. Nothing is proved of
/// the text but that it is the one the standard library prints for this value.
#[verifier::external_body]
pub(crate) fn float_error_text(cause: &core::num::ParseFloatError) -> (s: String)
    ensures
        s@ == float_error_debug(*cause),
{
    format!("{:?}", cause)
}

/// Compares two `core::num::ParseIntError` values with the standard
/// library's `==`, which holds exactly of two values of the same kind.
#[verifier::external_body]
pub(crate) fn same_int_error(a: &core::num::ParseIntError, b: &core::num::ParseIntError) -> (r:
    bool)
    ensures
        r == (*a == *b),
{
    a == b
}

/// Compares two `core::num::ParseFloatError` values with the standard
/// library's `==`, which holds exactly of two values of the same kind.
#[verifier::external_body]
pub(crate) fn same_float_error(
    a: &core::num::ParseFloatError,
    b: &core::num::ParseFloatError,
) -> (r: bool)
    ensures
        r == (*a == *b),
{
    a == b
}

} // verus!
