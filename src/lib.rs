//! Encoding and decoding of ASN.1 values with the Distinguished Encoding Rules.
//!
//! Every value is framed as tag, length and value octets. Primitive types
//! have their own codecs; SEQUENCE types are described at run time by a
//! schema of fields that drives the same per-field algorithms.

pub mod error;
pub use error::{Error, ParseError};

pub mod tag;
pub use tag::{Tag, TagClass, TagType, TAG_NUMBER_TOO_HIGH};

pub mod length;
pub use length::{decode_length, encode_length, LENGTH_TOO_LARGE};

pub mod frame;
pub use frame::{decode_frame, encode_frame};

pub mod boolean;
pub use boolean::{Boolean, BOOLEAN_TAG_NUMBER};

pub mod octetstring;
pub use octetstring::{OctetString, OCTET_STRING_TAG_NUMBER};

pub mod integer;
pub use integer::{Integer, INTEGER_TAG_NUMBER, INTEGER_TOO_LONG, MAX_INTEGER_OCTETS};

pub mod bitstring;
pub use bitstring::{BitString, BIT_STRING_TAG_NUMBER, PADDING_TOO_LONG};

pub mod generalstring;
pub use generalstring::{GeneralString, GENERALSTRING_TAG_NUMBER};

pub mod ia5string;
pub use ia5string::{IA5String, IA5STRING_TAG_NUMBER};

pub mod value;
pub use value::{Asn1Kind, Asn1Value, FieldSchema, SequenceSchema, SEQUENCE_TAG_NUMBER};

pub mod time;
pub use time::{GeneralizedTime, TimeFormat, GENERALIZED_TIME_TAG_NUMBER, INVALID_TIME, LOCAL_TIME_NOT_IMPLEMENTED};

pub mod codec;
pub use codec::{
    decode, decode_optional, encode, encode_optional, FIELD_COUNT_MISMATCH, VALUE_KIND_MISMATCH,
};

pub mod laws;

pub mod sequenceof;
pub use sequenceof::SequenceOf;

pub mod schema;
pub use schema::{
    parse_field_attributes, parse_sequence, parse_sequence_attributes, Attribute, AttributeValue,
    FieldDeclaration, SequenceDeclaration, APPLICATION_TAG_KEY, CONTEXT_TAG_KEY, OPTIONAL_KEY,
};
