//! INTEGER in two's complement, up to 128 bits.

use vstd::prelude::*;

use crate::error::Error;
use crate::frame::{decode_frame, encode_frame, slice_range, spec_decode_object, spec_frame};
use crate::length::pow256;
use crate::tag::{Tag, TagClass, TagType};

verus! {

pub const INTEGER_TAG_NUMBER: u8 = 2;

/// Most value octets an integer may have here.
pub const MAX_INTEGER_OCTETS: usize = 16;

/// Message for an integer of more than sixteen octets.
pub const INTEGER_TOO_LONG: &'static str = "too much data for implementation";

/// ASN.1 INTEGER, held in 128 bits.
#[derive(Clone, Copy, Debug, PartialEq, Eq, Structural)]
pub struct Integer {
    pub value: i128,
}

/// Fewest octets that hold `v` in two's complement.
pub open spec fn int_len(v: int) -> nat
    decreases (if v < 0 {
        -v
    } else {
        v
    }),
{
    if -128 <= v < 128 {
        1
    } else {
        1 + int_len(v / 256)
    }
}

/// The `n` low octets of `v` in two's complement, most significant first.
pub open spec fn twos_bytes(v: int, n: nat) -> Seq<u8>
    decreases n,
{
    if n == 0 {
        seq![]
    } else {
        twos_bytes(v / 256, (n - 1) as nat).push((v % 256) as u8)
    }
}

/// Value octets of an integer: its fewest two's complement octets.
pub open spec fn spec_integer_value(v: int) -> Seq<u8> {
    twos_bytes(v, int_len(v))
}

/// `init` followed by the octets of `s` as base-256 digits.
pub open spec fn fold_be(init: int, s: Seq<u8>) -> int
    decreases s.len(),
{
    if s.len() == 0 {
        init
    } else {
        fold_be(init, s.drop_last()) * 256 + s.last()
    }
}

/// -1 for a first octet with its top bit set, else 0.
pub open spec fn sign_fill(s: Seq<u8>) -> int {
    if s.len() > 0 && s[0] >= 128 {
        -1
    } else {
        0
    }
}

/// Two's complement value of big-endian octets.
pub open spec fn signed_value(s: Seq<u8>) -> int {
    fold_be(sign_fill(s), s)
}

/// An integer read from its value octets.
pub open spec fn spec_decode_integer_value(raw: Seq<u8>) -> Result<int, Error> {
    if raw.len() == 0 {
        Err(Error::NoDataForType)
    } else if raw.len() > MAX_INTEGER_OCTETS {
        Err(Error::ImplementationError(INTEGER_TOO_LONG))
    } else {
        Ok(signed_value(raw))
    }
}

impl Integer {
    pub open spec fn spec_tag() -> Tag {
        Tag::spec_new(INTEGER_TAG_NUMBER, TagType::Primitive, TagClass::Universal)
    }

    pub open spec fn spec_encode(self) -> Seq<u8> {
        spec_frame(Integer::spec_tag(), spec_integer_value(self.value as int))
    }

    pub open spec fn spec_decode(raw: Seq<u8>) -> Result<(int, int), Error> {
        spec_decode_object(raw, Integer::spec_tag(), |v| spec_decode_integer_value(v))
    }

    pub fn tag() -> (r: Tag)
        ensures
            r == Integer::spec_tag(),
    {
        Tag::new_primitive_universal(INTEGER_TAG_NUMBER)
    }

    pub fn new(value: i128) -> (r: Integer)
        ensures
            r.value == value,
    {
        Integer { value }
    }

    /// The integer zero.
    pub fn new_empty() -> (r: Integer)
        ensures
            r.value == 0,
    {
        Integer { value: 0 }
    }

    pub fn value(&self) -> (r: i128)
        ensures
            r == self.value,
    {
        self.value
    }

    pub fn set_value(&mut self, value: i128)
        ensures
            final(self).value == value,
    {
        self.value = value;
    }

    /// Count of value octets of this integer.
    pub fn encoded_value_size(&self) -> (r: usize)
        ensures
            r == int_len(self.value as int),
            1 <= r <= MAX_INTEGER_OCTETS,
    {
        proof {
            reveal_with_fuel(pow256, 16);
            lemma_int_len_bound(self.value as int, 16);
        }
        let mut shifted: i128 = self.value;
        let mut count: usize = 1;
        while !(-128 <= shifted && shifted < 128)
            invariant
                int_len(self.value as int) == count - 1 + int_len(shifted as int),
                int_len(self.value as int) <= 16,
                1 <= count,
            decreases (if shifted < 0 {
                -(shifted as int)
            } else {
                shifted as int
            }),
        {
            shifted = floor_div_256(shifted);
            count = count + 1;
        }
        count
    }

    pub fn encode_value(&self) -> (r: Vec<u8>)
        ensures
            r@ == spec_integer_value(self.value as int),
    {
        let n = self.encoded_value_size();
        let mut shifted: i128 = self.value;
        let mut octets: Vec<u8> = Vec::new();
        let mut j: usize = 0;
        while j < n
            invariant
                j <= n,
                n == int_len(self.value as int),
                twos_bytes(self.value as int, n as nat) == twos_bytes(
                    shifted as int,
                    (n - j) as nat,
                ) + octets@,
            decreases n - j,
        {
            let ghost before = octets@;
            let low: u8 = match shifted.checked_rem_euclid(256) {
                Some(b) => b as u8,
                None => 0,
            };
            octets.insert(0, low);
            proof {
                assert(seq![low] + before =~= octets@);
                assert(twos_bytes(shifted as int, (n - j) as nat) =~= twos_bytes(
                    (shifted / 256) as int,
                    (n - j - 1) as nat,
                ).push(low));
            }
            shifted = floor_div_256(shifted);
            j = j + 1;
        }
        proof {
            assert(octets@ =~= twos_bytes(self.value as int, n as nat));
        }
        octets
    }

    pub fn decode_value(raw: &[u8]) -> (r: Result<Integer, Error>)
        ensures
            match (r, spec_decode_integer_value(raw@)) {
                (Ok(i), Ok(v)) => i.value == v,
                (Err(e), Err(f)) => e == f,
                _ => false,
            },
    {
        if raw.len() == 0 {
            return Err(Error::NoDataForType);
        }
        if raw.len() > MAX_INTEGER_OCTETS {
            return Err(Error::ImplementationError(INTEGER_TOO_LONG));
        }
        let ghost init = sign_fill(raw@);
        let mut value: i128 = if raw[0] >= 128 {
            -1
        } else {
            0
        };
        let mut i: usize = 0;
        while i < raw.len()
            invariant
                i <= raw.len() <= 16,
                raw.len() > 0,
                init == sign_fill(raw@),
                value == fold_be(init, raw@.subrange(0, i as int)),
            decreases raw.len() - i,
        {
            proof {
                let next = raw@.subrange(0, i + 1);
                assert(next.drop_last() =~= raw@.subrange(0, i as int));
                assert(next[0] == raw@[0]);
                lemma_fold_bounds(next);
                lemma_pow256_mono(i as nat, 15);
                reveal_with_fuel(pow256, 16);
            }
            value = value * 256 + raw[i] as i128;
            i = i + 1;
        }
        proof {
            assert(raw@.subrange(0, raw.len() as int) =~= raw@);
        }
        Ok(Integer { value })
    }

    /// Tag, length and value octets of this integer.
    pub fn encode(&self) -> (r: Vec<u8>)
        ensures
            r@ == self.spec_encode(),
    {
        encode_frame(Integer::tag(), self.encode_value())
    }

    /// Reads an integer at the start of `raw`; gives the octets read and the
    /// value.
    pub fn decode(raw: &[u8]) -> (r: Result<(usize, Integer), Error>)
        ensures
            match (r, Integer::spec_decode(raw@)) {
                (Ok((n, i)), Ok((m, v))) => 2 <= n <= raw.len() && n == m && i.value == v,
                (Err(e), Err(f)) => e == f,
                _ => false,
            },
    {
        let (h, l) = match decode_frame(raw, Integer::tag(), TagClass::Universal) {
            Ok(p) => p,
            Err(e) => return Err(e),
        };
        match Integer::decode_value(slice_range(raw, h, l)) {
            Ok(i) => Ok((h + l, i)),
            Err(e) => Err(e),
        }
    }
}

/// `x` divided by 256, rounded down.
fn floor_div_256(x: i128) -> (r: i128)
    ensures
        r == x / 256,
{
    match x.checked_div_euclid(256) {
        Some(q) => q,
        None => 0,
    }
}

pub proof fn lemma_pow256_mono(a: nat, b: nat)
    requires
        a <= b,
    ensures
        pow256(a) <= pow256(b),
    decreases b,
{
    if a < b {
        lemma_pow256_mono(a, (b - 1) as nat);
    }
}

/// Octets whose sign fill matches their first octet stay within the
/// two's complement range of their count.
pub proof fn lemma_fold_bounds(s: Seq<u8>)
    requires
        s.len() >= 1,
    ensures
        -128 * pow256((s.len() - 1) as nat) <= fold_be(sign_fill(s), s) < 128 * pow256(
            (s.len() - 1) as nat,
        ),
    decreases s.len(),
{
    let p = s.drop_last();
    if s.len() > 1 {
        assert(p[0] == s[0]);
        assert(sign_fill(p) == sign_fill(s));
        lemma_fold_bounds(p);
        assert(fold_be(sign_fill(s), s) == fold_be(sign_fill(p), p) * 256 + s.last());
    } else {
        reveal_with_fuel(fold_be, 2);
        assert(p.len() == 0);
        assert(fold_be(sign_fill(s), s) == sign_fill(s) * 256 + s.last());
    }
}

/// Every integer inside the two's complement range of `k` octets has at
/// most `k` of them.
pub proof fn lemma_int_len_bound(v: int, k: nat)
    requires
        k >= 1,
        -128 * pow256((k - 1) as nat) <= v < 128 * pow256((k - 1) as nat),
    ensures
        int_len(v) <= k,
    decreases k,
{
    if !(-128 <= v < 128) {
        if k == 1 {
            assert(pow256(0) == 1);
        } else {
            assert(pow256((k - 1) as nat) == 256 * pow256((k - 2) as nat));
            lemma_int_len_bound(v / 256, (k - 1) as nat);
        }
    }
}

/// The fewest two's complement octets of `v` begin with a set top bit
/// exactly when `v` is negative, and read back as `v`.
pub proof fn lemma_integer_value_round_trip(v: int)
    ensures
        twos_bytes(v, int_len(v)).len() == int_len(v),
        (twos_bytes(v, int_len(v))[0] >= 128) == (v < 0),
        signed_value(twos_bytes(v, int_len(v))) == v,
    decreases (if v < 0 {
        -v
    } else {
        v
    }),
{
    let s = twos_bytes(v, int_len(v));
    if -128 <= v < 128 {
        reveal_with_fuel(twos_bytes, 2);
        reveal_with_fuel(fold_be, 2);
        assert(s =~= seq![(v % 256) as u8]);
        assert(s.drop_last() =~= Seq::<u8>::empty());
    } else {
        let w = v / 256;
        lemma_integer_value_round_trip(w);
        let t = twos_bytes(w, int_len(w));
        assert(s == t.push((v % 256) as u8));
        assert(s.drop_last() =~= t);
        assert(s[0] == t[0]);
        assert(sign_fill(s) == sign_fill(t));
    }
}

impl From<i128> for Integer {
    fn from(value: i128) -> Integer {
        Integer { value: value }
    }
}

impl vstd::std_specs::convert::FromSpecImpl<i128> for Integer {
    open spec fn obeys_from_spec() -> bool {
        true
    }

    open spec fn from_spec(v: i128) -> Integer {
        Integer { value: v }
    }
}

impl Default for Integer {
    fn default() -> (r: Integer)
        ensures
            r.value == 0,
    {
        Integer { value: 0 }
    }
}

} // verus!
