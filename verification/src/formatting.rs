//! Text that is written to a formatter of the standard library.

use vstd::prelude::*;

verus! {

/// `core::fmt::Formatter`, of which nothing is known but what has been written to it.
#[verifier::external_type_specification]
#[verifier::external_body]
pub struct ExFormatter<'a>(core::fmt::Formatter<'a>);

/// `core::fmt::Error`, of which nothing is known.
#[verifier::external_type_specification]
#[verifier::external_body]
pub struct ExFmtError(core::fmt::Error);

/// What has been written to a formatter: the texts that its buffer has taken, one behind the
/// other.
pub uninterp spec fn written(fmt: core::fmt::Formatter<'_>) -> Seq<char>;

/// Calls `core::fmt::Formatter::write_str`, which writes a text to the buffer of the formatter:
/// unless it returns an error, all of the text has been written, behind what was written
/// before. Whether it returns an error rests with the buffer.
#[verifier::external_body]
pub(crate) fn write_str(
    fmt: &mut core::fmt::Formatter<'_>,
    text: &str,
) -> (result: Result<(), core::fmt::Error>)
    ensures
        result is Ok ==> written(*final(fmt)) == written(*old(fmt)) + text@,
{
    fmt.write_str(text)
}

} // verus!
