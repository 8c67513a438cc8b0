//! What can go wrong in a conversion.

use crate::variant_ty::{Ty, VariantTy};
use vstd::prelude::*;

verus! {

/// Mathematical model of an [`Error`].
#[allow(inconsistent_fields)]
pub enum Failure {
    Mismatch { actual: Ty, expected: Ty },
    LengthMismatch { actual: nat, expected: nat },
    UnsupportedType(Ty),
    InconsistentTypes,
    StrMismatch(Ty),
    ExpectedChar(Seq<char>),
    OutOfRange,
    WrongShape,
    Syntax,
    InvalidLength(nat),
}

/// The first failure of a conversion. Nothing recovers from one: it aborts the
/// whole conversion and is handed to the caller.
#[derive(Debug, PartialEq, Eq)]
#[allow(inconsistent_fields)]
pub enum Error {
    /// A value of type `actual` met a request for `expected`.
    Mismatch { actual: VariantTy, expected: VariantTy },
    /// A tuple or array has `actual` members where `expected` were declared.
    LengthMismatch { actual: usize, expected: usize },
    /// The type has no counterpart on the other side.
    UnsupportedType(VariantTy),
    /// The members of a collection differ in type and cannot be boxed.
    InconsistentTypes,
    /// A string was asked of a value of this type.
    StrMismatch(VariantTy),
    /// A character was asked of this string, which is empty.
    ExpectedChar(String),
    /// A number does not fit the width or signedness asked for.
    OutOfRange,
    /// A type was asked for a part that its shape does not have.
    WrongShape,
    /// The text is not the signature of a type.
    Syntax,
    /// A binary envelope ended after this many fields.
    InvalidLength(usize),
}

impl View for Error {
    type V = Failure;

    open spec fn view(&self) -> Failure {
        match self {
            Error::Mismatch { actual, expected } => Failure::Mismatch {
                actual: actual@,
                expected: expected@,
            },
            Error::LengthMismatch { actual, expected } => Failure::LengthMismatch {
                actual: *actual as nat,
                expected: *expected as nat,
            },
            Error::UnsupportedType(t) => Failure::UnsupportedType(t@),
            Error::InconsistentTypes => Failure::InconsistentTypes,
            Error::StrMismatch(t) => Failure::StrMismatch(t@),
            Error::ExpectedChar(s) => Failure::ExpectedChar(s@),
            Error::OutOfRange => Failure::OutOfRange,
            Error::WrongShape => Failure::WrongShape,
            Error::Syntax => Failure::Syntax,
            Error::InvalidLength(n) => Failure::InvalidLength(*n as nat),
        }
    }
}

} // verus!
