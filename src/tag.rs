//! Identifier octets: class, form and tag number.

use vstd::prelude::*;

use crate::error::Error;

verus! {

/// Scope of a tag: the two top bits of the identifier octet.
#[derive(Clone, Copy, Debug, PartialEq, Eq, Structural)]
pub enum TagClass {
    Universal,
    Application,
    Context,
    Private,
}

/// Whether a value is atomic or framed content: bit 5 of the identifier octet.
#[derive(Clone, Copy, Debug, PartialEq, Eq, Structural)]
pub enum TagType {
    Primitive,
    Constructed,
}

impl TagClass {
    pub open spec fn spec_bits(self) -> u8 {
        match self {
            TagClass::Universal => 0,
            TagClass::Application => 1,
            TagClass::Context => 2,
            TagClass::Private => 3,
        }
    }

    pub open spec fn spec_from_bits(b: u8) -> TagClass {
        if b % 4 == 0 {
            TagClass::Universal
        } else if b % 4 == 1 {
            TagClass::Application
        } else if b % 4 == 2 {
            TagClass::Context
        } else {
            TagClass::Private
        }
    }

    /// The class whose code is the two low bits of `b`.
    pub fn from_bits(b: u8) -> (r: TagClass)
        ensures
            r == TagClass::spec_from_bits(b),
    {
        let low = b % 4;
        if low == 0 {
            TagClass::Universal
        } else if low == 1 {
            TagClass::Application
        } else if low == 2 {
            TagClass::Context
        } else {
            TagClass::Private
        }
    }

    pub fn bits(self) -> (r: u8)
        ensures
            r == self.spec_bits(),
    {
        match self {
            TagClass::Universal => 0,
            TagClass::Application => 1,
            TagClass::Context => 2,
            TagClass::Private => 3,
        }
    }
}

impl TagType {
    pub open spec fn spec_bit(self) -> u8 {
        match self {
            TagType::Primitive => 0,
            TagType::Constructed => 1,
        }
    }

    pub open spec fn spec_from_bit(b: u8) -> TagType {
        if b % 2 == 0 {
            TagType::Primitive
        } else {
            TagType::Constructed
        }
    }

    /// The type whose code is the low bit of `b`.
    pub fn from_bit(b: u8) -> (r: TagType)
        ensures
            r == TagType::spec_from_bit(b),
    {
        if b % 2 == 0 {
            TagType::Primitive
        } else {
            TagType::Constructed
        }
    }

    pub fn bit(self) -> (r: u8)
        ensures
            r == self.spec_bit(),
    {
        match self {
            TagType::Primitive => 0,
            TagType::Constructed => 1,
        }
    }
}

/// An identifier: class, primitive/constructed form and a number in 0..=255.
#[derive(Clone, Copy, Debug, PartialEq, Eq, Structural)]
pub struct Tag {
    pub tag_number: u8,
    pub tag_type: TagType,
    pub tag_class: TagClass,
}

/// The first identifier octet without its five number bits.
pub open spec fn leading_bits(class: TagClass, form: TagType) -> int {
    class.spec_bits() * 64 + form.spec_bit() * 32
}

/// The octets after the first one for a number above 30: base 128, least
/// significant group first, each octet but the last with bit 7 set.
pub open spec fn high_number_octets(n: u8) -> Seq<u8> {
    if n < 128 {
        seq![n]
    } else {
        seq![(128 + n % 128) as u8, (n / 128) as u8]
    }
}

/// Value of base-128 groups, least significant first, ignoring bit 7.
pub open spec fn base128_le_value(s: Seq<u8>) -> nat
    decreases s.len(),
{
    if s.len() == 0 {
        0
    } else {
        (s[0] % 128) as nat + 128 * base128_le_value(s.drop_first())
    }
}

/// Index of the first octet at or after `i` whose bit 7 is clear, if any.
pub open spec fn first_final_octet(s: Seq<u8>, i: int) -> Option<int>
    decreases s.len() - i,
{
    if i < 0 || i >= s.len() {
        None
    } else if s[i] < 128 {
        Some(i)
    } else {
        first_final_octet(s, i + 1)
    }
}

impl Tag {
    pub open spec fn spec_new(tag_number: u8, tag_type: TagType, tag_class: TagClass) -> Tag {
        Tag { tag_number, tag_type, tag_class }
    }

    /// The identifier octets of this tag.
    pub open spec fn spec_encode(self) -> Seq<u8> {
        let lead = leading_bits(self.tag_class, self.tag_type);
        if self.tag_number <= 30 {
            seq![(lead + self.tag_number) as u8]
        } else {
            seq![(lead + 31) as u8] + high_number_octets(self.tag_number)
        }
    }

    /// What decoding the identifier at the start of `raw` gives: the number
    /// of octets read and the tag.
    pub open spec fn spec_decode(raw: Seq<u8>) -> Result<(int, Tag), Error> {
        if raw.len() == 0 {
            Err(Error::EmptyTag(TagClass::Universal))
        } else {
            let class = TagClass::spec_from_bits(raw[0] / 64);
            let form = TagType::spec_from_bit(raw[0] / 32);
            if raw[0] % 32 != 31 {
                Ok((1, Tag::spec_new(raw[0] % 32, form, class)))
            } else {
                match first_final_octet(raw, 1) {
                    None => Err(Error::NotEnoughTagOctets(TagClass::Universal)),
                    Some(last) => {
                        let n = base128_le_value(raw.subrange(1, last + 1));
                        if n > 255 {
                            Err(Error::ImplementationError(TAG_NUMBER_TOO_HIGH))
                        } else {
                            Ok((last + 1, Tag::spec_new(n as u8, form, class)))
                        }
                    },
                }
            }
        }
    }

    /// Creates a tag from a number, form and class.
    pub fn new(tag_number: u8, tag_type: TagType, tag_class: TagClass) -> (r: Tag)
        ensures
            r == Tag::spec_new(tag_number, tag_type, tag_class),
    {
        Tag { tag_number, tag_type, tag_class }
    }

    /// A primitive tag of the universal class.
    pub fn new_primitive_universal(tag_number: u8) -> (r: Tag)
        ensures
            r == Tag::spec_new(tag_number, TagType::Primitive, TagClass::Universal),
    {
        Tag::new(tag_number, TagType::Primitive, TagClass::Universal)
    }

    /// A constructed tag of the universal class.
    pub fn new_constructed_universal(tag_number: u8) -> (r: Tag)
        ensures
            r == Tag::spec_new(tag_number, TagType::Constructed, TagClass::Universal),
    {
        Tag::new(tag_number, TagType::Constructed, TagClass::Universal)
    }

    pub fn set_number(&mut self, tag_number: u8)
        ensures
            *final(self) == Tag::spec_new(tag_number, old(self).tag_type, old(self).tag_class),
    {
        self.tag_number = tag_number;
    }

    pub fn set_class(&mut self, tag_class: TagClass)
        ensures
            *final(self) == Tag::spec_new(old(self).tag_number, old(self).tag_type, tag_class),
    {
        self.tag_class = tag_class;
    }

    /// The identifier octets of this tag.
    pub fn encode(&self) -> (r: Vec<u8>)
        ensures
            r@ == self.spec_encode(),
    {
        let lead: u8 = self.tag_class.bits() * 64 + self.tag_type.bit() * 32;
        if self.tag_number <= 30 {
            return vec![lead + self.tag_number];
        }
        let mut encoded: Vec<u8> = vec![lead + 31];
        let n = self.tag_number;
        if n < 128 {
            encoded.push(n);
        } else {
            encoded.push(128 + n % 128);
            encoded.push(n / 128);
        }
        proof {
            assert(encoded@ =~= self.spec_encode());
        }
        encoded
    }

    /// Reads the identifier at the start of `raw`; gives the number of octets
    /// read and the tag.
    pub fn decode(raw: &[u8]) -> (r: Result<(usize, Tag), Error>)
        ensures
            match (r, Tag::spec_decode(raw@)) {
                (Ok((n, t)), Ok((m, u))) => n == m && t == u && 1 <= n <= raw.len(),
                (Err(e), Err(f)) => e == f,
                _ => false,
            },
    {
        if raw.len() == 0 {
            return Err(Error::EmptyTag(TagClass::Universal));
        }
        let octet = raw[0];
        let class = TagClass::from_bits(octet / 64);
        let form = TagType::from_bit(octet / 32);
        if octet % 32 != 31 {
            return Ok((1, Tag::new(octet % 32, form, class)));
        }
        // find the last octet of the number
        let mut last: usize = 1;
        while last < raw.len() && raw[last] >= 128
            invariant
                1 <= last <= raw.len(),
                first_final_octet(raw@, 1) == first_final_octet(raw@, last as int),
            decreases raw.len() - last,
        {
            last = last + 1;
        }
        if last == raw.len() {
            return Err(Error::NotEnoughTagOctets(TagClass::Universal));
        }
        assert(first_final_octet(raw@, 1) == Some(last as int));
        // fold the groups, most significant first
        let mut number: u32 = 0;
        let mut i: usize = last + 1;
        while i > 1
            invariant
                1 <= i <= last + 1,
                last < raw.len(),
                raw@[0] % 32 == 31,
                first_final_octet(raw@, 1) == Some(last as int),
                number <= 255,
                number == base128_le_value(raw@.subrange(i as int, last + 1)),
            decreases i,
        {
            i = i - 1;
            let ghost rest = raw@.subrange(i + 1, last + 1);
            proof {
                assert(raw@.subrange(i as int, last + 1).drop_first() =~= rest);
            }
            number = number * 128 + (raw[i] % 128) as u32;
            assert(number == base128_le_value(raw@.subrange(i as int, last + 1)));
            if number > 255 {
                proof {
                    lemma_base128_suffix_bound(raw@.subrange(1, last + 1), i - 1);
                    assert(raw@.subrange(1, last + 1).subrange(i - 1, last as int)
                        =~= raw@.subrange(i as int, last + 1));
                    assert(base128_le_value(raw@.subrange(1, last + 1)) > 255);
                }
                return Err(Error::ImplementationError(TAG_NUMBER_TOO_HIGH));
            }
        }
        Ok((last + 1, Tag::new(number as u8, form, class)))
    }
}

/// The value of a suffix of base-128 groups never exceeds that of the whole.
pub proof fn lemma_base128_suffix_bound(s: Seq<u8>, i: int)
    requires
        0 <= i <= s.len(),
    ensures
        base128_le_value(s.subrange(i, s.len() as int)) <= base128_le_value(s),
    decreases i,
{
    if i > 0 {
        assert(s.drop_first().subrange(i - 1, s.drop_first().len() as int) =~= s.subrange(
            i,
            s.len() as int,
        ));
        lemma_base128_suffix_bound(s.drop_first(), i - 1);
    } else {
        assert(s.subrange(0, s.len() as int) =~= s);
    }
}

/// The identifier octets of any tag decode, whatever follows them, to that
/// tag and to their own count.
pub proof fn lemma_tag_round_trip(t: Tag, rest: Seq<u8>)
    ensures
        Tag::spec_decode(t.spec_encode() + rest) == Ok::<(int, Tag), Error>(
            (t.spec_encode().len() as int, t),
        ),
{
    reveal_with_fuel(base128_le_value, 3);
    let enc = t.spec_encode();
    let raw = enc + rest;
    let lead = leading_bits(t.tag_class, t.tag_type);
    assert(raw[0] == enc[0]);
    assert(TagClass::spec_from_bits(raw[0] / 64) == t.tag_class);
    assert(TagType::spec_from_bit(raw[0] / 32) == t.tag_type);
    if t.tag_number > 30 {
        let n = t.tag_number;
        if n < 128 {
            assert(raw[1] == n);
            assert(first_final_octet(raw, 1) == Some(1int));
            assert(raw.subrange(1, 2).drop_first() =~= Seq::<u8>::empty());
            assert(base128_le_value(raw.subrange(1, 2)) == n);
        } else {
            assert(raw[1] == (128 + n % 128) as u8);
            assert(raw[2] == (n / 128) as u8);
            assert(first_final_octet(raw, 2) == Some(2int));
            assert(first_final_octet(raw, 1) == Some(2int));
            let groups = raw.subrange(1, 3);
            assert(groups.drop_first().drop_first() =~= Seq::<u8>::empty());
            assert(base128_le_value(groups.drop_first()) == n / 128);
            assert(base128_le_value(groups) == n);
        }
    }
}

/// Message for an identifier whose number does not fit in one octet.
pub const TAG_NUMBER_TOO_HIGH: &'static str = "tag number above 255";

} // verus!
