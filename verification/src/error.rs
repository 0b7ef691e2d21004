//! The closed error taxonomy reported by parsing, encoding and decoding.

use vstd::prelude::*;

use crate::serialized::Format;
use crate::signature::{sig_eq, SignatureError, SpecSignature};
use crate::signature::Signature;

verus! {

/// Which of the three independent nesting counters was exhausted.
#[derive(Debug, Clone, Copy, PartialEq, Eq, Structural)]
pub enum MaxDepthExceeded {
    /// The maximum allowed depth for structures in encoding was exceeded.
    Structure,
    /// The maximum allowed depth for arrays in encoding was exceeded.
    Array,
    /// The maximum allowed depth for containers in encoding was exceeded.
    Container,
}

impl MaxDepthExceeded {
    /// Human-readable account of the exhausted counter.
    pub fn description(&self) -> (r: &'static str)
        ensures
            r@ == self.description_spec(),
    {
        match self {
            MaxDepthExceeded::Structure => "Maximum allowed depth for structures in encoding was exceeded",
            MaxDepthExceeded::Array => "Maximum allowed depth for arrays in encoding was exceeded",
            MaxDepthExceeded::Container => "Maximum allowed depth for containers in encoding was exceeded",
        }
    }

    pub open spec fn description_spec(self) -> Seq<char> {
        match self {
            MaxDepthExceeded::Structure => "Maximum allowed depth for structures in encoding was exceeded"@,
            MaxDepthExceeded::Array => "Maximum allowed depth for arrays in encoding was exceeded"@,
            MaxDepthExceeded::Container => "Maximum allowed depth for containers in encoding was exceeded"@,
        }
    }
}

/// Mathematical model of [`Error`]: signature payloads are modeled as
/// [`SpecSignature`] trees and strings as character sequences.
#[verifier::ext_equal]
pub enum SpecError {
    Message(Seq<char>),
    InputOutput(Seq<char>),
    IncorrectType,
    Utf8,
    PaddingNot0(u8),
    UnknownFd,
    MissingFramingOffset,
    IncompatibleFormat(SpecSignature, Format),
    SignatureMismatch(SpecSignature, Seq<char>),
    OutOfBounds,
    MaxDepthExceeded(MaxDepthExceeded),
    SignatureParse(SignatureError),
    EmptyStructure,
    InvalidObjectPath,
}

/// Error type used by the encoding engine.
///
/// Every failure of parsing, encoding or decoding is one of these variants;
/// all are detected locally and propagated immediately, none implies a
/// usable partial result.
#[derive(Debug)]
#[non_exhaustive]
pub enum Error {
    /// Generic error message, for adapted lower-level serialization errors.
    Message(String),
    /// A platform input/output failure, carrying the underlying error text.
    InputOutput(String),
    /// A value's runtime shape does not match the type it is serialized
    /// against.
    IncorrectType,
    /// A decoded string was not valid UTF-8.
    Utf8,
    /// Non-zero padding byte encountered while decoding.
    PaddingNot0(u8),
    /// The deserialized file descriptor index is not in the given table.
    UnknownFd,
    /// Missing framing offset at the end of a compact-format container.
    MissingFramingOffset,
    /// The type (signature as first argument) is not supported by the format.
    IncompatibleFormat(Signature, Format),
    /// The provided signature (first argument) was not valid for reading as
    /// the requested type; the second argument describes what was expected.
    SignatureMismatch(Signature, String),
    /// Out of bounds range specified.
    OutOfBounds,
    /// The maximum allowed depth for containers in encoding was exceeded.
    MaxDepthExceeded(MaxDepthExceeded),
    /// Error from parsing a signature.
    SignatureParse(SignatureError),
    /// Attempted to create an empty structure, which the grammar forbids.
    EmptyStructure,
    /// Invalid object path.
    InvalidObjectPath,
}

impl View for Error {
    type V = SpecError;

    open spec fn view(&self) -> SpecError {
        match self {
            Error::Message(m) => SpecError::Message(m@),
            Error::InputOutput(m) => SpecError::InputOutput(m@),
            Error::IncorrectType => SpecError::IncorrectType,
            Error::Utf8 => SpecError::Utf8,
            Error::PaddingNot0(b) => SpecError::PaddingNot0(*b),
            Error::UnknownFd => SpecError::UnknownFd,
            Error::MissingFramingOffset => SpecError::MissingFramingOffset,
            Error::IncompatibleFormat(s, f) => SpecError::IncompatibleFormat(s@, *f),
            Error::SignatureMismatch(s, e) => SpecError::SignatureMismatch(s@, e@),
            Error::OutOfBounds => SpecError::OutOfBounds,
            Error::MaxDepthExceeded(m) => SpecError::MaxDepthExceeded(*m),
            Error::SignatureParse(e) => SpecError::SignatureParse(*e),
            Error::EmptyStructure => SpecError::EmptyStructure,
            Error::InvalidObjectPath => SpecError::InvalidObjectPath,
        }
    }
}

/// What equality of two errors means: structural equality of variant and
/// payload, except that two input/output errors never compare equal, since
/// the platform errors they wrap are not comparable.
pub open spec fn spec_err_eq(a: SpecError, b: SpecError) -> bool {
    match (a, b) {
        (SpecError::Message(m1), SpecError::Message(m2)) => m1 == m2,
        (SpecError::IncorrectType, SpecError::IncorrectType) => true,
        (SpecError::Utf8, SpecError::Utf8) => true,
        (SpecError::PaddingNot0(p1), SpecError::PaddingNot0(p2)) => p1 == p2,
        (SpecError::UnknownFd, SpecError::UnknownFd) => true,
        (SpecError::MaxDepthExceeded(m1), SpecError::MaxDepthExceeded(m2)) => m1 == m2,
        (SpecError::MissingFramingOffset, SpecError::MissingFramingOffset) => true,
        (SpecError::IncompatibleFormat(s1, f1), SpecError::IncompatibleFormat(s2, f2)) => s1 == s2
            && f1 == f2,
        (SpecError::SignatureMismatch(s1, e1), SpecError::SignatureMismatch(s2, e2)) => s1 == s2
            && e1 == e2,
        (SpecError::OutOfBounds, SpecError::OutOfBounds) => true,
        (SpecError::SignatureParse(e1), SpecError::SignatureParse(e2)) => e1 == e2,
        (SpecError::EmptyStructure, SpecError::EmptyStructure) => true,
        (SpecError::InvalidObjectPath, SpecError::InvalidObjectPath) => true,
        _ => false,
    }
}

impl PartialEq for Error {
    fn eq(&self, other: &Self) -> (r: bool) {
        match (self, other) {
            (Error::Message(m1), Error::Message(m2)) => String::eq(m1, m2),
            // input/output errors are never equal
            (Error::IncorrectType, Error::IncorrectType) => true,
            (Error::Utf8, Error::Utf8) => true,
            (Error::PaddingNot0(p1), Error::PaddingNot0(p2)) => p1 == p2,
            (Error::UnknownFd, Error::UnknownFd) => true,
            (Error::MaxDepthExceeded(m1), Error::MaxDepthExceeded(m2)) => m1 == m2,
            (Error::MissingFramingOffset, Error::MissingFramingOffset) => true,
            (Error::IncompatibleFormat(s1, f1), Error::IncompatibleFormat(s2, f2)) => sig_eq(
                s1,
                s2,
            ) && f1 == f2,
            (Error::SignatureMismatch(s1, e1), Error::SignatureMismatch(s2, e2)) => sig_eq(s1, s2)
                && String::eq(e1, e2),
            (Error::OutOfBounds, Error::OutOfBounds) => true,
            (Error::SignatureParse(e1), Error::SignatureParse(e2)) => e1 == e2,
            (Error::EmptyStructure, Error::EmptyStructure) => true,
            (Error::InvalidObjectPath, Error::InvalidObjectPath) => true,
            _ => false,
        }
    }
}

impl vstd::std_specs::cmp::PartialEqSpecImpl for Error {
    open spec fn obeys_eq_spec() -> bool {
        true
    }

    open spec fn eq_spec(&self, other: &Error) -> bool {
        spec_err_eq(self@, other@)
    }
}

impl Error {
    /// Human-readable account of the error kind.  Payloads that are carried
    /// by a variant are not interpolated into the text.
    pub fn description(&self) -> (r: &'static str)
        ensures
            r@ == self.description_spec(),
    {
        match self {
            Error::Message(_) => "error message",
            Error::InputOutput(_) => "input/output error",
            Error::IncorrectType => "incorrect type",
            Error::Utf8 => "invalid UTF-8",
            Error::PaddingNot0(_) => "unexpected non-0 padding byte",
            Error::UnknownFd => "file descriptor not in the given fd index",
            Error::MissingFramingOffset => "missing framing offset at the end of compact-encoded container",
            Error::IncompatibleFormat(_, _) => "type is not compatible with the format",
            Error::SignatureMismatch(_, _) => "signature mismatch",
            Error::OutOfBounds => "out of bounds range specified",
            Error::MaxDepthExceeded(m) => m.description(),
            Error::SignatureParse(_) => "error parsing a signature",
            Error::EmptyStructure => "attempted to create an empty structure",
            Error::InvalidObjectPath => "invalid object path",
        }
    }

    pub open spec fn description_spec(self) -> Seq<char> {
        match self {
            Error::Message(_) => "error message"@,
            Error::InputOutput(_) => "input/output error"@,
            Error::IncorrectType => "incorrect type"@,
            Error::Utf8 => "invalid UTF-8"@,
            Error::PaddingNot0(_) => "unexpected non-0 padding byte"@,
            Error::UnknownFd => "file descriptor not in the given fd index"@,
            Error::MissingFramingOffset => "missing framing offset at the end of compact-encoded container"@,
            Error::IncompatibleFormat(_, _) => "type is not compatible with the format"@,
            Error::SignatureMismatch(_, _) => "signature mismatch"@,
            Error::OutOfBounds => "out of bounds range specified"@,
            Error::MaxDepthExceeded(m) => m.description_spec(),
            Error::SignatureParse(_) => "error parsing a signature"@,
            Error::EmptyStructure => "attempted to create an empty structure"@,
            Error::InvalidObjectPath => "invalid object path"@,
        }
    }
}

} // verus!
