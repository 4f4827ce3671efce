//! IA5String: ASCII text.

use vstd::prelude::*;
use vstd::slice::slice_to_vec;

use crate::error::Error;
use crate::frame::{decode_frame, encode_frame, slice_range, spec_decode_object, spec_frame};
use crate::tag::{Tag, TagClass, TagType};

verus! {

pub const IA5STRING_TAG_NUMBER: u8 = 0x16;

/// ASN.1 IA5String: ASCII characters, one octet each.
#[derive(Clone, Debug, PartialEq, Eq)]
pub struct IA5String {
    chars: Vec<u8>,
}

impl View for IA5String {
    type V = Seq<u8>;

    closed spec fn view(&self) -> Seq<u8> {
        self.chars@
    }
}

/// Every octet is an ASCII character code.
pub open spec fn all_ascii(s: Seq<u8>) -> bool {
    forall|i: int| 0 <= i < s.len() ==> s[i] < 128
}

/// An IA5 string read from its value octets: each must be ASCII.
pub open spec fn spec_decode_ia5_string_value(raw: Seq<u8>) -> Result<Seq<u8>, Error> {
    if all_ascii(raw) {
        Ok(raw)
    } else {
        Err(Error::AsciiError)
    }
}

/// Relies on `ascii::AsciiChar::from_ascii` for `u8`: it accepts exactly the
/// octets 0 to 0x7F.
#[verifier::external_body]
fn is_ascii_octet(b: u8) -> (r: bool)
    ensures
        r == (b < 128),
{
    ascii::AsciiChar::from_ascii(b).is_ok()
}

/// Whether every octet of `raw` is ASCII.
fn check_ascii(raw: &[u8]) -> (r: bool)
    ensures
        r == all_ascii(raw@),
{
    let mut i: usize = 0;
    while i < raw.len()
        invariant
            i <= raw.len(),
            all_ascii(raw@.subrange(0, i as int)),
        decreases raw.len() - i,
    {
        if !is_ascii_octet(raw[i]) {
            return false;
        }
        proof {
            assert(forall|j: int| 0 <= j < i + 1 ==> raw@.subrange(0, i + 1)[j] == raw@[j]);
        }
        i = i + 1;
    }
    proof {
        assert(raw@.subrange(0, raw.len() as int) =~= raw@);
    }
    true
}

impl IA5String {
    pub open spec fn spec_tag() -> Tag {
        Tag::spec_new(IA5STRING_TAG_NUMBER, TagType::Primitive, TagClass::Universal)
    }

    pub closed spec fn wf(self) -> bool {
        all_ascii(self.chars@)
    }

    pub open spec fn spec_encode(self) -> Seq<u8> {
        spec_frame(IA5String::spec_tag(), self@)
    }

    pub open spec fn spec_decode(raw: Seq<u8>) -> Result<(int, Seq<u8>), Error> {
        spec_decode_object(raw, IA5String::spec_tag(), |v| spec_decode_ia5_string_value(v))
    }

    pub proof fn lemma_wf(self)
        requires
            self.wf(),
        ensures
            all_ascii(self@),
    {
    }

    pub fn tag() -> (r: Tag)
        ensures
            r == IA5String::spec_tag(),
    {
        Tag::new_primitive_universal(IA5STRING_TAG_NUMBER)
    }

    /// The IA5 string of the character codes `chars`; fails on any octet
    /// that is not ASCII.
    pub fn new(chars: &[u8]) -> (r: Result<IA5String, Error>)
        ensures
            match (r, spec_decode_ia5_string_value(chars@)) {
                (Ok(s), Ok(v)) => s@ == v && s.wf(),
                (Err(e), Err(f)) => e == f,
                _ => false,
            },
    {
        if check_ascii(chars) {
            Ok(IA5String { chars: slice_to_vec(chars) })
        } else {
            Err(Error::AsciiError)
        }
    }

    /// An empty IA5 string.
    pub fn new_empty() -> (r: IA5String)
        ensures
            r@ == Seq::<u8>::empty(),
            r.wf(),
    {
        IA5String { chars: Vec::new() }
    }

    /// The character codes.
    pub fn value(&self) -> (r: &Vec<u8>)
        ensures
            r@ == self@,
    {
        &self.chars
    }

    pub fn encode_value(&self) -> (r: Vec<u8>)
        ensures
            r@ == self@,
    {
        self.chars.clone()
    }

    pub fn decode_value(raw: &[u8]) -> (r: Result<IA5String, Error>)
        ensures
            match (r, spec_decode_ia5_string_value(raw@)) {
                (Ok(s), Ok(v)) => s@ == v && s.wf(),
                (Err(e), Err(f)) => e == f,
                _ => false,
            },
    {
        IA5String::new(raw)
    }

    /// Tag, length and value octets of this string.
    pub fn encode(&self) -> (r: Vec<u8>)
        ensures
            r@ == self.spec_encode(),
    {
        encode_frame(IA5String::tag(), self.encode_value())
    }

    /// Reads an IA5 string at the start of `raw`; gives the octets read and
    /// the value.
    pub fn decode(raw: &[u8]) -> (r: Result<(usize, IA5String), Error>)
        ensures
            match (r, IA5String::spec_decode(raw@)) {
                (Ok((n, s)), Ok((m, v))) => 2 <= n <= raw.len() && n == m && s@ == v && s.wf(),
                (Err(e), Err(f)) => e == f,
                _ => false,
            },
    {
        let (h, l) = match decode_frame(raw, IA5String::tag(), TagClass::Universal) {
            Ok(p) => p,
            Err(e) => return Err(e),
        };
        match IA5String::decode_value(slice_range(raw, h, l)) {
            Ok(s) => Ok((h + l, s)),
            Err(e) => Err(e),
        }
    }
}

impl Default for IA5String {
    fn default() -> (r: IA5String)
        ensures
            r@ == Seq::<u8>::empty(),
            r.wf(),
    {
        IA5String::new_empty()
    }
}

} // verus!
