//! SEQUENCE OF as a list of values of one kind.

use vstd::prelude::*;

use crate::codec::{decode_items, encode, spec_decode, spec_encode_items};
use crate::error::Error;
use crate::frame::{decode_frame, encode_frame, slice_range, spec_frame};
use crate::tag::{Tag, TagClass};
use crate::value::{
    items_model, sequence_tag, Asn1Kind, Asn1Value, ValueModel, SEQUENCE_TAG_NUMBER,
};

verus! {

/// A SEQUENCE OF: its elements in order, all of one kind.
#[derive(Debug, PartialEq)]
pub struct SequenceOf {
    pub items: Vec<Asn1Value>,
}

impl SequenceOf {
    /// An empty SEQUENCE OF.
    pub fn new() -> (r: SequenceOf)
        ensures
            r.items@.len() == 0,
    {
        SequenceOf { items: Vec::new() }
    }

    /// The elements.
    pub fn value(&self) -> (r: &Vec<Asn1Value>)
        ensures
            r@ == self.items@,
    {
        &self.items
    }

    /// Appends an element.
    pub fn push(&mut self, item: Asn1Value)
        ensures
            final(self).items@ == old(self).items@.push(item),
    {
        self.items.push(item);
    }

    pub fn len(&self) -> (r: usize)
        ensures
            r == self.items@.len(),
    {
        self.items.len()
    }

    /// Encodes the elements as values of `element`, framed as SEQUENCE.
    pub fn encode(&self, element: &Asn1Kind) -> (r: Result<Vec<u8>, Error>)
        ensures
            match (r, spec_encode_items(*element, self.items@)) {
                (Ok(b), Ok(c)) => b@ == spec_frame(sequence_tag(), c),
                (Err(e), Err(f)) => e == f,
                _ => false,
            },
    {
        let mut content: Vec<u8> = Vec::new();
        let mut i: usize = 0;
        while i < self.items.len()
            invariant
                i <= self.items.len(),
                spec_encode_items(*element, self.items@.subrange(0, i as int)) == Ok::<
                    Seq<u8>,
                    Error,
                >(content@),
            decreases self.items.len() - i,
        {
            proof {
                assert(self.items@.subrange(0, i + 1).drop_last() =~= self.items@.subrange(
                    0,
                    i as int,
                ));
                assert(self.items@.subrange(0, i + 1).last() == self.items@[i as int]);
            }
            match encode(element, &self.items[i]) {
                Ok(b) => {
                    let mut b = b;
                    content.append(&mut b);
                },
                Err(e) => {
                    proof {
                        crate::codec::lemma_items_prefix_error(*element, self.items@, i + 1);
                    }
                    return Err(e);
                },
            }
            i = i + 1;
        }
        proof {
            assert(self.items@.subrange(0, self.items.len() as int) =~= self.items@);
        }
        Ok(encode_frame(Tag::new_constructed_universal(SEQUENCE_TAG_NUMBER), content))
    }

    /// Decodes a SEQUENCE OF values of `element` at the start of `raw`;
    /// gives the octets read and the elements.
    pub fn decode(element: &Asn1Kind, raw: &[u8]) -> (r: Result<(usize, SequenceOf), Error>)
        ensures
            match (r, spec_decode(Asn1Kind::SequenceOf(Box::new(*element)), raw@)) {
                (Ok((n, s)), Ok((m, w))) => n == m && ValueModel::SequenceOf(items_model(s.items@))
                    == w && 1 <= n <= raw.len(),
                (Err(e), Err(f)) => e == f,
                _ => false,
            },
    {
        let (h, l) = match decode_frame(
            raw,
            Tag::new_constructed_universal(SEQUENCE_TAG_NUMBER),
            TagClass::Universal,
        ) {
            Ok(p) => p,
            Err(e) => return Err(e),
        };
        match decode_items(element, slice_range(raw, h, l)) {
            Ok(items) => Ok((h + l, SequenceOf { items })),
            Err(e) => Err(e),
        }
    }

    /// This SEQUENCE OF as a value.
    pub fn into_value(self) -> (r: Asn1Value)
        ensures
            r == Asn1Value::SequenceOf(self.items),
    {
        Asn1Value::SequenceOf(self.items)
    }
}

} // verus!
