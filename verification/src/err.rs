use vstd::prelude::*;

verus! {

/// The closed set of decode and encode failures.
///
/// Every error names the structural cause, so that a caller can tell a tag
/// mismatch from a non-canonical length, a truncated input, or a value outside
/// its domain.
#[derive(Clone, Copy, Debug, PartialEq, Eq, Structural)]
pub enum Error {
    /// The observed tag differs from the tag the schema expects.
    UnexpectedTag,
    /// Fewer bytes are available than a read or a declared length requires.
    EndOfInput,
    /// A length encoding is not the minimal DER form.
    NonCanonicalEncoding,
    /// An enumeration value outside the recognized set.
    UnhandledEnumValue,
    /// An integer is negative or exceeds the requested native width.
    IntegerOutOfRange,
    /// A NULL value with a nonzero declared body length.
    IllegalNull,
    /// An object identifier encoding exceeds the fixed capacity.
    UnsupportedLargeObjectId,
    /// A length form beyond two extra bytes, which this codec does not handle.
    NotImplemented,
}

} // verus!
