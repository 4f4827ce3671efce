//! GeneralizedTime in UTC.

use vstd::prelude::*;

use crate::error::Error;
use crate::frame::{decode_frame, encode_frame, slice_range, spec_decode_object, spec_frame};
use crate::tag::{Tag, TagClass, TagType};

verus! {

pub const GENERALIZED_TIME_TAG_NUMBER: u8 = 0x18;

/// Message for a time that is not given in UTC.
pub const LOCAL_TIME_NOT_IMPLEMENTED: &'static str = "local time parse is not implemented";

/// Message for a date or time of day that does not exist.
pub const INVALID_TIME: &'static str = "date or time of day does not exist";

/// How the seconds of a time are written.
#[allow(non_camel_case_types)]
#[derive(Clone, Copy, Debug, PartialEq, Eq, Structural)]
pub enum TimeFormat {
    /// `YYYYmmddHHMMSS.DZ`, with deciseconds.
    YYYYmmddHHMMSS_DZ,
    /// `YYYYmmddHHMMSSZ`, whole seconds.
    YYYYmmddHHMMSSZ,
}

/// ASN.1 GeneralizedTime in UTC, to the decisecond.
#[derive(Clone, Copy, Debug, PartialEq, Eq, Structural)]
pub struct GeneralizedTime {
    pub year: u16,
    pub month: u8,
    pub day: u8,
    pub hour: u8,
    pub minute: u8,
    pub second: u8,
    pub decisecond: u8,
    pub format: TimeFormat,
}

pub open spec fn is_leap_year(y: int) -> bool {
    y % 4 == 0 && (y % 100 != 0 || y % 400 == 0)
}

pub open spec fn days_in_month(y: int, m: int) -> int {
    if m == 2 {
        if is_leap_year(y) {
            29
        } else {
            28
        }
    } else if m == 4 || m == 6 || m == 9 || m == 11 {
        30
    } else {
        31
    }
}

/// The day exists in the proleptic Gregorian calendar.
pub open spec fn valid_date(y: int, m: int, d: int) -> bool {
    1 <= m <= 12 && 1 <= d <= days_in_month(y, m)
}

/// Relies on `chrono::NaiveDate::from_ymd_opt`: for a year from 0 to 9999 it
/// gives a date exactly when the month and day name a day of that year.
#[verifier::external_body]
fn calendar_date_exists(year: u16, month: u8, day: u8) -> (r: bool)
    requires
        year <= 9999,
    ensures
        r == valid_date(year as int, month as int, day as int),
{
    chrono::NaiveDate::from_ymd_opt(year as i32, month as u32, day as u32).is_some()
}

/// ASCII code of the decimal digit `d`.
pub open spec fn digit(d: int) -> u8 {
    (48 + d) as u8
}

pub open spec fn is_digit(b: u8) -> bool {
    48 <= b <= 57
}

/// Two decimal digits of `v`.
pub open spec fn two_digits(v: int) -> Seq<u8> {
    seq![digit(v / 10 % 10), digit(v % 10)]
}

/// Value of the two digits at `i`.
pub open spec fn digits_at(s: Seq<u8>, i: int) -> int {
    (s[i] - 48) * 10 + (s[i + 1] - 48)
}

impl GeneralizedTime {
    pub open spec fn spec_tag() -> Tag {
        Tag::spec_new(GENERALIZED_TIME_TAG_NUMBER, TagType::Primitive, TagClass::Universal)
    }

    /// Every field is in range and the day exists; whole-second times have
    /// no deciseconds.
    pub open spec fn wf(self) -> bool {
        &&& self.year <= 9999
        &&& valid_date(self.year as int, self.month as int, self.day as int)
        &&& self.hour < 24
        &&& self.minute < 60
        &&& self.second < 60
        &&& self.decisecond < 10
        &&& self.format == TimeFormat::YYYYmmddHHMMSSZ ==> self.decisecond == 0
    }

    /// Value octets: the digits of year, month, day, hour, minute and
    /// second, then `.D` in the decisecond format, then `Z`.
    pub open spec fn spec_value(self) -> Seq<u8> {
        two_digits(self.year as int / 100) + two_digits(self.year as int % 100) + two_digits(
            self.month as int,
        ) + two_digits(self.day as int) + two_digits(self.hour as int) + two_digits(
            self.minute as int,
        ) + two_digits(self.second as int) + (if self.format == TimeFormat::YYYYmmddHHMMSS_DZ {
            seq![46u8, digit(self.decisecond as int % 10)]
        } else {
            seq![]
        }) + seq![90u8]
    }

    pub open spec fn spec_encode(self) -> Seq<u8> {
        spec_frame(GeneralizedTime::spec_tag(), self.spec_value())
    }

    /// A time read from its value octets.
    pub open spec fn spec_decode_value(raw: Seq<u8>) -> Result<GeneralizedTime, Error> {
        if raw.len() < 15 {
            Err(Error::NoDataForType)
        } else if !(forall|i: int| 0 <= i < 14 ==> is_digit(#[trigger] raw[i])) || (raw.len() >= 17
            && !is_digit(raw[15])) {
            Err(Error::ParseIntError)
        } else if raw.last() != 90 {
            Err(Error::ImplementationError(LOCAL_TIME_NOT_IMPLEMENTED))
        } else {
            let t = GeneralizedTime {
                year: (digits_at(raw, 0) * 100 + digits_at(raw, 2)) as u16,
                month: digits_at(raw, 4) as u8,
                day: digits_at(raw, 6) as u8,
                hour: digits_at(raw, 8) as u8,
                minute: digits_at(raw, 10) as u8,
                second: digits_at(raw, 12) as u8,
                decisecond: if raw.len() >= 17 {
                    (raw[15] - 48) as u8
                } else {
                    0
                },
                format: if raw.len() >= 17 {
                    TimeFormat::YYYYmmddHHMMSS_DZ
                } else {
                    TimeFormat::YYYYmmddHHMMSSZ
                },
            };
            if t.wf() {
                Ok(t)
            } else {
                Err(Error::ConstraintError(INVALID_TIME))
            }
        }
    }

    pub open spec fn spec_decode(raw: Seq<u8>) -> Result<(int, GeneralizedTime), Error> {
        spec_decode_object(raw, GeneralizedTime::spec_tag(), |v| GeneralizedTime::spec_decode_value(v))
    }

    pub fn tag() -> (r: Tag)
        ensures
            r == GeneralizedTime::spec_tag(),
    {
        Tag::new_primitive_universal(GENERALIZED_TIME_TAG_NUMBER)
    }

    /// The time given by its fields, in the decisecond format; fails when a
    /// field is out of range or the day does not exist.
    pub fn new(year: u16, month: u8, day: u8, hour: u8, minute: u8, second: u8, decisecond: u8) -> (r:
        Result<GeneralizedTime, Error>)
        ensures
            ({
                let t = GeneralizedTime {
                    year,
                    month,
                    day,
                    hour,
                    minute,
                    second,
                    decisecond,
                    format: TimeFormat::YYYYmmddHHMMSS_DZ,
                };
                &&& t.wf() ==> r == Ok::<GeneralizedTime, Error>(t)
                &&& !t.wf() ==> r == Err::<GeneralizedTime, Error>(Error::ConstraintError(INVALID_TIME))
            }),
    {
        let t = GeneralizedTime {
            year,
            month,
            day,
            hour,
            minute,
            second,
            decisecond,
            format: TimeFormat::YYYYmmddHHMMSS_DZ,
        };
        if t.check() {
            Ok(t)
        } else {
            Err(Error::ConstraintError(INVALID_TIME))
        }
    }

    /// The start of 1970 in UTC, in the decisecond format.
    pub open spec fn spec_epoch() -> GeneralizedTime {
        GeneralizedTime {
            year: 1970,
            month: 1,
            day: 1,
            hour: 0,
            minute: 0,
            second: 0,
            decisecond: 0,
            format: TimeFormat::YYYYmmddHHMMSS_DZ,
        }
    }

    /// The start of 1970 in UTC, in the decisecond format.
    pub fn new_empty() -> (r: GeneralizedTime)
        ensures
            r == GeneralizedTime::spec_epoch(),
            r.wf(),
    {
        GeneralizedTime {
            year: 1970,
            month: 1,
            day: 1,
            hour: 0,
            minute: 0,
            second: 0,
            decisecond: 0,
            format: TimeFormat::YYYYmmddHHMMSS_DZ,
        }
    }

    /// The same time written in `format`; whole seconds drop the deciseconds.
    pub fn set_format(&mut self, format: TimeFormat)
        ensures
            final(self).format == format,
            final(self).decisecond == (if format == TimeFormat::YYYYmmddHHMMSSZ {
                0
            } else {
                old(self).decisecond
            }),
            final(self).year == old(self).year && final(self).month == old(self).month
                && final(self).day == old(self).day && final(self).hour == old(self).hour
                && final(self).minute == old(self).minute && final(self).second == old(
                self,
            ).second,
            old(self).wf() ==> final(self).wf(),
    {
        self.format = format;
        if format == TimeFormat::YYYYmmddHHMMSSZ {
            self.decisecond = 0;
        }
    }

    /// Whether this value is well formed.
    pub fn check(&self) -> (r: bool)
        ensures
            r == self.wf(),
    {
        if self.year > 9999 || self.hour >= 24 || self.minute >= 60 || self.second >= 60
            || self.decisecond >= 10 {
            return false;
        }
        if self.format == TimeFormat::YYYYmmddHHMMSSZ && self.decisecond != 0 {
            return false;
        }
        calendar_date_exists(self.year, self.month, self.day)
    }

    pub fn encode_value(&self) -> (r: Vec<u8>)
        ensures
            r@ == self.spec_value(),
    {
        let mut out: Vec<u8> = Vec::new();
        push_two_digits(&mut out, self.year / 100);
        push_two_digits(&mut out, self.year % 100);
        push_two_digits(&mut out, self.month as u16);
        push_two_digits(&mut out, self.day as u16);
        push_two_digits(&mut out, self.hour as u16);
        push_two_digits(&mut out, self.minute as u16);
        push_two_digits(&mut out, self.second as u16);
        let ghost upto_seconds = out@;
        if self.format == TimeFormat::YYYYmmddHHMMSS_DZ {
            out.push(46);
            out.push(48 + self.decisecond % 10);
        }
        out.push(90);
        proof {
            assert(out@ =~= self.spec_value());
        }
        out
    }

    pub fn decode_value(raw: &[u8]) -> (r: Result<GeneralizedTime, Error>)
        ensures
            match (r, GeneralizedTime::spec_decode_value(raw@)) {
                (Ok(t), Ok(u)) => t == u && t.wf(),
                (Err(e), Err(f)) => e == f,
                _ => false,
            },
    {
        if raw.len() < 15 {
            return Err(Error::NoDataForType);
        }
        let mut i: usize = 0;
        while i < 14
            invariant
                i <= 14 < raw.len(),
                forall|j: int| 0 <= j < i ==> is_digit(#[trigger] raw@[j]),
            decreases 14 - i,
        {
            if !(48 <= raw[i] && raw[i] <= 57) {
                return Err(Error::ParseIntError);
            }
            i = i + 1;
        }
        if raw.len() >= 17 && !(48 <= raw[15] && raw[15] <= 57) {
            return Err(Error::ParseIntError);
        }
        if raw[raw.len() - 1] != 90 {
            return Err(Error::ImplementationError(LOCAL_TIME_NOT_IMPLEMENTED));
        }
        let long = raw.len() >= 17;
        let t = GeneralizedTime {
            year: read_two_digits(raw, 0) as u16 * 100 + read_two_digits(raw, 2) as u16,
            month: read_two_digits(raw, 4),
            day: read_two_digits(raw, 6),
            hour: read_two_digits(raw, 8),
            minute: read_two_digits(raw, 10),
            second: read_two_digits(raw, 12),
            decisecond: if long {
                raw[15] - 48
            } else {
                0
            },
            format: if long {
                TimeFormat::YYYYmmddHHMMSS_DZ
            } else {
                TimeFormat::YYYYmmddHHMMSSZ
            },
        };
        if t.check() {
            Ok(t)
        } else {
            Err(Error::ConstraintError(INVALID_TIME))
        }
    }

    /// Tag, length and value octets of this time.
    pub fn encode(&self) -> (r: Vec<u8>)
        ensures
            r@ == self.spec_encode(),
    {
        encode_frame(GeneralizedTime::tag(), self.encode_value())
    }

    /// Reads a time at the start of `raw`; gives the octets read and the
    /// value.
    pub fn decode(raw: &[u8]) -> (r: Result<(usize, GeneralizedTime), Error>)
        ensures
            match (r, GeneralizedTime::spec_decode(raw@)) {
                (Ok((n, t)), Ok((m, u))) => 2 <= n <= raw.len() && n == m && t == u && t.wf(),
                (Err(e), Err(f)) => e == f,
                _ => false,
            },
    {
        let (h, l) = match decode_frame(raw, GeneralizedTime::tag(), TagClass::Universal) {
            Ok(p) => p,
            Err(e) => return Err(e),
        };
        match GeneralizedTime::decode_value(slice_range(raw, h, l)) {
            Ok(t) => Ok((h + l, t)),
            Err(e) => Err(e),
        }
    }
}

fn push_two_digits(out: &mut Vec<u8>, v: u16)
    ensures
        final(out)@ == old(out)@ + two_digits(v as int),
{
    out.push(48 + (v / 10 % 10) as u8);
    out.push(48 + (v % 10) as u8);
    proof {
        assert(final(out)@ =~= old(out)@ + two_digits(v as int));
    }
}

fn read_two_digits(raw: &[u8], i: usize) -> (r: u8)
    requires
        i + 1 < raw.len(),
        is_digit(raw@[i as int]),
        is_digit(raw@[i + 1]),
    ensures
        r == digits_at(raw@, i as int),
        r < 100,
{
    (raw[i] - 48) * 10 + (raw[i + 1] - 48)
}

/// A well-formed time written out and read back is the same time.
pub proof fn lemma_time_value_round_trip(t: GeneralizedTime)
    requires
        t.wf(),
    ensures
        GeneralizedTime::spec_decode_value(t.spec_value()) == Ok::<GeneralizedTime, Error>(t),
{
    let s = t.spec_value();
    assert(forall|i: int| 0 <= i < 14 ==> is_digit(#[trigger] s[i]));
    let u = GeneralizedTime::spec_decode_value(s)->Ok_0;
    assert(digits_at(s, 0) * 100 + digits_at(s, 2) == t.year);
    assert(u == t);
}

impl Default for GeneralizedTime {
    fn default() -> (r: GeneralizedTime)
        ensures
            r == GeneralizedTime::spec_epoch(),
    {
        GeneralizedTime::new_empty()
    }
}

} // verus!
