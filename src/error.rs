//! Errors of encoding and decoding, and of building schemas.

use vstd::prelude::*;

use crate::tag::TagClass;

verus! {

/// Failure of an encoding or decoding operation.
#[derive(Debug, PartialEq, Eq)]
pub enum Error {
    /// Tag cannot be decoded because there are no octets.
    EmptyTag(TagClass),
    /// The octets ran out inside a high tag number.
    NotEnoughTagOctets(TagClass),
    /// The decoded tag is not the one expected here.
    UnmatchedTag(TagClass),
    /// No length octets were provided.
    LengthEmpty,
    /// The long form announces more length octets than there are.
    NotEnoughLengthOctects,
    /// No value was provided to encode.
    NoValue,
    /// No component with the given identifier.
    NoComponent,
    /// Error in a field of a sequence: sequence name, field name, cause.
    SequenceFieldError(String, String, Box<Error>),
    /// Error in the framing of a sequence: sequence name, cause.
    SequenceError(String, Box<Error>),
    /// The length announces more octets than there are.
    NoDataForLength,
    /// Not enough value octets to build the type.
    NoDataForType,
    /// Octets were left after the last field of a sequence.
    NoAllDataConsumed,
    /// The octets are not valid UTF-8.
    Utf8Error,
    /// An octet is not an ASCII character.
    AsciiError,
    /// A field that should hold decimal digits does not.
    ParseIntError,
    /// The value is beyond what this implementation handles.
    ImplementationError(&'static str),
    /// The value breaks a constraint of its type.
    ConstraintError(&'static str),
}

impl Clone for Error {
    fn clone(&self) -> (r: Error)
        ensures
            r == *self,
        decreases self,
    {
        match self {
            Error::EmptyTag(c) => Error::EmptyTag(*c),
            Error::NotEnoughTagOctets(c) => Error::NotEnoughTagOctets(*c),
            Error::UnmatchedTag(c) => Error::UnmatchedTag(*c),
            Error::LengthEmpty => Error::LengthEmpty,
            Error::NotEnoughLengthOctects => Error::NotEnoughLengthOctects,
            Error::NoValue => Error::NoValue,
            Error::NoComponent => Error::NoComponent,
            Error::SequenceFieldError(s, f, e) => Error::SequenceFieldError(
                s.clone(),
                f.clone(),
                Box::new((**e).clone()),
            ),
            Error::SequenceError(s, e) => Error::SequenceError(s.clone(), Box::new((**e).clone())),
            Error::NoDataForLength => Error::NoDataForLength,
            Error::NoDataForType => Error::NoDataForType,
            Error::NoAllDataConsumed => Error::NoAllDataConsumed,
            Error::Utf8Error => Error::Utf8Error,
            Error::AsciiError => Error::AsciiError,
            Error::ParseIntError => Error::ParseIntError,
            Error::ImplementationError(m) => Error::ImplementationError(*m),
            Error::ConstraintError(m) => Error::ConstraintError(*m),
        }
    }
}

/// Failure while building a sequence schema from its declared attributes.
#[derive(Clone, Copy, Debug, PartialEq, Eq)]
pub enum ParseError {
    /// No attribute container was found.
    NotFoundAttributeTag,
    /// A tag number is not an integer in 0..=255.
    InvalidTagNumberValue,
    /// An attribute key is not recognised.
    UnknownAttribute,
    /// A field type cannot be recognised.
    InvalidFieldType,
    /// The declaration is not a record with named fields.
    NotStruct,
}

} // verus!
