//! Length octets in short and long form.

use vstd::prelude::*;

use crate::error::Error;

verus! {

/// Number of base-256 digits of `n` (none for zero).
pub open spec fn byte_count(n: nat) -> nat
    decreases n,
{
    if n == 0 {
        0
    } else {
        1 + byte_count(n / 256)
    }
}

/// The `k` low base-256 digits of `n`, most significant first.
pub open spec fn be_bytes(n: nat, k: nat) -> Seq<u8>
    decreases k,
{
    if k == 0 {
        seq![]
    } else {
        be_bytes(n / 256, (k - 1) as nat).push((n % 256) as u8)
    }
}

/// Unsigned value of big-endian octets.
pub open spec fn be_value(s: Seq<u8>) -> nat
    decreases s.len(),
{
    if s.len() == 0 {
        0
    } else {
        be_value(s.drop_last()) * 256 + s.last() as nat
    }
}

/// `256` raised to `k`.
pub open spec fn pow256(k: nat) -> nat
    decreases k,
{
    if k == 0 {
        1
    } else {
        256 * pow256((k - 1) as nat)
    }
}

/// Length octets of a value of `n` octets: one octet below 128, otherwise
/// a count octet with bit 7 set followed by the fewest big-endian octets.
pub open spec fn spec_encode_length(n: nat) -> Seq<u8> {
    if n < 128 {
        seq![n as u8]
    } else {
        seq![(128 + byte_count(n)) as u8] + be_bytes(n, byte_count(n))
    }
}

/// What decoding the length octets at the start of `raw` gives: the length
/// and the number of octets read.
pub open spec fn spec_decode_length(raw: Seq<u8>) -> Result<(int, int), Error> {
    if raw.len() == 0 {
        Err(Error::LengthEmpty)
    } else if raw[0] < 128 {
        Ok((raw[0] as int, 1))
    } else {
        let k = raw[0] - 128;
        if k >= raw.len() {
            Err(Error::NotEnoughLengthOctects)
        } else if be_value(raw.subrange(1, k + 1)) > usize::MAX {
            Err(Error::ImplementationError(LENGTH_TOO_LARGE))
        } else {
            Ok((be_value(raw.subrange(1, k + 1)) as int, k + 1))
        }
    }
}

/// Message for a length that does not fit in `usize`.
pub const LENGTH_TOO_LARGE: &'static str = "length does not fit in usize";

/// Encodes the length of a value of `value_size` octets.
pub fn encode_length(value_size: usize) -> (r: Vec<u8>)
    ensures
        r@ == spec_encode_length(value_size as nat),
{
    if value_size < 128 {
        return vec![value_size as u8];
    }
    let mut shifted: usize = value_size;
    let mut count: u8 = 0;
    proof {
        reveal_with_fuel(pow256, 9);
        assert(pow256(8) == 0x1_0000_0000_0000_0000);
    }
    let mut digits: Vec<u8> = Vec::new();
    while shifted > 0
        invariant
            byte_count(value_size as nat) == count + byte_count(shifted as nat),
            be_bytes(value_size as nat, byte_count(value_size as nat)) == be_bytes(
                shifted as nat,
                byte_count(shifted as nat),
            ) + digits@,
            count <= 8,
            shifted < pow256((8 - count) as nat),
        decreases shifted,
    {
        let ghost before = digits@;
        proof {
            assert(be_bytes(shifted as nat, byte_count(shifted as nat)) == be_bytes(
                (shifted / 256) as nat,
                byte_count((shifted / 256) as nat),
            ).push((shifted % 256) as u8));
        }
        digits.insert(0, (shifted % 256) as u8);
        shifted = shifted / 256;
        count = count + 1;
        proof {
            assert(seq![digits@[0]] + before =~= digits@);
            assert(be_bytes(value_size as nat, byte_count(value_size as nat)) =~= be_bytes(
                shifted as nat,
                byte_count(shifted as nat),
            ) + digits@);
        }
    }
    digits.insert(0, 128 + count);
    proof {
        assert(digits@ =~= spec_encode_length(value_size as nat));
    }
    digits
}

/// Decodes the length octets at the start of `raw`; gives the length and the
/// number of octets read.
pub fn decode_length(raw: &[u8]) -> (r: Result<(usize, usize), Error>)
    ensures
        match (r, spec_decode_length(raw@)) {
            (Ok((l, n)), Ok((m, k))) => l == m && n == k && 1 <= n <= raw.len(),
            (Err(e), Err(f)) => e == f,
            _ => false,
        },
{
    if raw.len() == 0 {
        return Err(Error::LengthEmpty);
    }
    if raw[0] < 128 {
        return Ok((raw[0] as usize, 1));
    }
    let k = (raw[0] - 128) as usize;
    if k >= raw.len() {
        return Err(Error::NotEnoughLengthOctects);
    }
    let mut length: usize = 0;
    let mut i: usize = 1;
    while i <= k
        invariant
            1 <= i <= k + 1,
            k < raw.len(),
            k == raw@[0] - 128,
            length == be_value(raw@.subrange(1, i as int)),
        decreases k + 1 - i,
    {
        proof {
            assert(raw@.subrange(1, i + 1).drop_last() =~= raw@.subrange(1, i as int));
        }
        if length > (usize::MAX - raw[i] as usize) / 256 {
            proof {
                lemma_be_value_prefix(raw@.subrange(1, k + 1), i as int);
                assert(raw@.subrange(1, k + 1).subrange(0, i as int) =~= raw@.subrange(
                    1,
                    i + 1,
                ));
            }
            return Err(Error::ImplementationError(LENGTH_TOO_LARGE));
        }
        length = length * 256 + raw[i] as usize;
        i = i + 1;
    }
    Ok((length, k + 1))
}

/// A prefix of big-endian octets never has a greater value than the whole.
pub proof fn lemma_be_value_prefix(s: Seq<u8>, j: int)
    requires
        0 <= j <= s.len(),
    ensures
        be_value(s.subrange(0, j)) <= be_value(s),
    decreases s.len() - j,
{
    if j < s.len() {
        lemma_be_value_prefix(s.drop_last(), j);
        assert(s.drop_last().subrange(0, j) =~= s.subrange(0, j));
    } else {
        assert(s.subrange(0, j) =~= s);
    }
}

pub proof fn lemma_be_bytes_len(n: nat, k: nat)
    ensures
        be_bytes(n, k).len() == k,
    decreases k,
{
    if k > 0 {
        lemma_be_bytes_len(n / 256, (k - 1) as nat);
    }
}

/// The fewest big-endian octets of `n` read back as `n`.
pub proof fn lemma_be_value_of_bytes(n: nat)
    ensures
        be_value(be_bytes(n, byte_count(n))) == n,
    decreases n,
{
    if n > 0 {
        lemma_be_value_of_bytes(n / 256);
        let s = be_bytes(n, byte_count(n));
        assert(s.drop_last() =~= be_bytes(n / 256, byte_count(n / 256)));
    }
}

/// A number below `256^k` has at most `k` base-256 digits.
pub proof fn lemma_byte_count_bound(n: nat, k: nat)
    requires
        n < pow256(k),
    ensures
        byte_count(n) <= k,
    decreases k,
{
    if n > 0 && k > 0 {
        lemma_byte_count_bound(n / 256, (k - 1) as nat);
    }
}

/// The digits of a nonzero number begin with a nonzero octet.
pub proof fn lemma_be_bytes_leading(n: nat)
    requires
        n > 0,
    ensures
        be_bytes(n, byte_count(n))[0] != 0,
    decreases n,
{
    lemma_be_bytes_len(n, byte_count(n));
    let s = be_bytes(n, byte_count(n));
    assert(s == be_bytes(n / 256, byte_count(n / 256)).push((n % 256) as u8));
    if n / 256 > 0 {
        lemma_be_bytes_leading(n / 256);
        lemma_be_bytes_len(n / 256, byte_count(n / 256));
    } else {
        assert(byte_count(n / 256) == 0);
        assert(s[0] == (n % 256) as u8);
    }
}

/// Length canonicity: the length octets of any `n` that fits in `usize`
/// decode, whatever follows them, to `n` and to the count of octets
/// written: one below 128, else one plus the fewest base-256 digits of `n`,
/// the first of which is not zero.
pub proof fn lemma_length_round_trip(n: nat, rest: Seq<u8>)
    requires
        n <= usize::MAX,
    ensures
        spec_decode_length(spec_encode_length(n) + rest) == Ok::<(int, int), Error>(
            (n as int, spec_encode_length(n).len() as int),
        ),
        n < 128 ==> spec_encode_length(n).len() == 1,
        n >= 128 ==> spec_encode_length(n).len() == 1 + byte_count(n) && spec_encode_length(
            n,
        )[1] != 0,
{
    let enc = spec_encode_length(n);
    let raw = enc + rest;
    if n >= 128 {
        reveal_with_fuel(pow256, 9);
        lemma_byte_count_bound(n, 8);
        lemma_be_bytes_len(n, byte_count(n));
        lemma_be_value_of_bytes(n);
        lemma_be_bytes_leading(n);
        assert(raw.subrange(1, byte_count(n) + 1 as int) =~= be_bytes(n, byte_count(n)));
    }
}

} // verus!
