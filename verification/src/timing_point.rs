//! Timing points: tempo and sample changes that hold from their time on.

use crate::decimal::{decode_signed_decimal, lemma_decimal_ends_in_digit, spec_signed_decimal};
use crate::error::{miscount, plain, DecodeError, Failure};
use crate::flags::{spec_effects, Effects};
use crate::rational::Rational;
use crate::sample::{spec_sample_set, SampleSet};
use crate::hit_object::lemma_field_with_leading_space;
use crate::text::{
    decode_int,
    leading_space,
    lemma_int_ends_in_digit,
    lemma_space_bytes,
    lemma_split_last,
    spec_int,
    split,
    split_fields,
    trailing_space,
    views,
    COMMA,
};
use vstd::prelude::*;

verus! {

/// A timing point. A record of an older format version leaves out the
/// later fields, which then keep their defaults.
#[derive(Debug, Copy, Clone, PartialEq, Eq, Structural)]
pub struct TimingPoint {
    pub time: i64,
    pub beat_length: Rational,
    pub meter: i64,
    pub sample_set: SampleSet,
    pub sample_index: i64,
    pub volume: i64,
    pub uninherited: bool,
    pub effects: Effects,
}

/// The timing point at the given time and beat length with every other
/// field at its default: meter four, default sample set, sample index zero,
/// volume one hundred, uninherited, no effects.
pub open spec fn timing_point_defaults(time: i64, beat_length: Rational) -> TimingPoint {
    TimingPoint {
        time,
        beat_length,
        meter: 4,
        sample_set: SampleSet::Default,
        sample_index: 0,
        volume: 100,
        uninherited: true,
        effects: Effects { kiai: false, omit_barline: false },
    }
}

/// Whether a timing-point record may have `count` fields.
pub open spec fn timing_point_count(count: nat) -> bool {
    count == 2 || count == 6 || count == 7 || count == 8
}

/// The uninherited flag of a record with the given fields: true where the
/// seventh field is absent, else whether that field writes the integer one.
pub open spec fn spec_uninherited(fields: Seq<Seq<u8>>) -> Result<bool, Failure> {
    if fields.len() >= 7 {
        match spec_int(fields[6]) {
            Err(f) => Err(f),
            Ok(v) => Ok(v == 1),
        }
    } else {
        Ok(true)
    }
}

/// The effects of a record with the given fields: none where the eighth
/// field is absent.
pub open spec fn spec_point_effects(fields: Seq<Seq<u8>>) -> Result<Effects, Failure> {
    if fields.len() >= 8 {
        spec_effects(fields[7])
    } else {
        Ok(Effects { kiai: false, omit_barline: false })
    }
}

/// The timing point that `line` writes. The number of fields decides its
/// shape: two give time and beat length; six add meter, sample set, sample
/// index and volume; seven add the uninherited flag; eight add the effects.
/// Any other number is a failure.
pub open spec fn spec_timing_point(line: Seq<u8>) -> Result<TimingPoint, Failure> {
    let fields = split(line, COMMA);
    if !timing_point_count(fields.len()) {
        Err(miscount(fields.len(), line))
    } else {
        match spec_int(fields[0]) {
            Err(f) => Err(f),
            Ok(time) => match spec_signed_decimal(fields[1]) {
                Err(f) => Err(f),
                Ok(beat_length) => if fields.len() == 2 {
                    Ok(timing_point_defaults(time, beat_length))
                } else {
                    match spec_int(fields[2]) {
                        Err(f) => Err(f),
                        Ok(meter) => match spec_sample_set(fields[3]) {
                            Err(f) => Err(f),
                            Ok(sample_set) => match spec_int(fields[4]) {
                                Err(f) => Err(f),
                                Ok(sample_index) => match spec_int(fields[5]) {
                                    Err(f) => Err(f),
                                    Ok(volume) => match spec_uninherited(fields) {
                                        Err(f) => Err(f),
                                        Ok(uninherited) => match spec_point_effects(fields) {
                                            Err(f) => Err(f),
                                            Ok(effects) => Ok(
                                                TimingPoint {
                                                    time,
                                                    beat_length,
                                                    meter,
                                                    sample_set,
                                                    sample_index,
                                                    volume,
                                                    uninherited,
                                                    effects,
                                                },
                                            ),
                                        },
                                    },
                                },
                            },
                        },
                    }
                },
            },
        }
    }
}

/// A timing-point record that starts with white space is refused: nothing
/// is trimmed before the fields are cut.
pub proof fn lemma_leading_space_is_refused(line: Seq<u8>)
    requires
        leading_space(line) > 0,
    ensures
        spec_timing_point(line) is Err,
{
    lemma_field_with_leading_space(line);
}

/// A timing-point record that ends in white space is refused: nothing is
/// trimmed after the fields are cut.
pub proof fn lemma_trailing_space_is_refused(line: Seq<u8>)
    requires
        trailing_space(line) > 0,
    ensures
        spec_timing_point(line) is Err,
{
    lemma_space_bytes(line);
    lemma_split_last(line, COMMA);
    let fields = split(line, COMMA);
    let last = fields.last();
    lemma_int_ends_in_digit(last);
    lemma_decimal_ends_in_digit(last);
    assert(spec_effects(last) is Err) by {
        assert(seq![48u8].last() == 48 && seq![49u8].last() == 49 && seq![52u8].last() == 52
            && seq![53u8].last() == 53);
    }
}

impl Default for TimingPoint {
    fn default() -> (r: TimingPoint)
        ensures
            r == timing_point_defaults(0, Rational::spec_new(0, 1)),
            r.beat_length.wf(),
    {
        TimingPoint {
            time: 0,
            beat_length: Rational::from_integer(0),
            meter: 4,
            sample_set: SampleSet::Default,
            sample_index: 0,
            volume: 100,
            uninherited: true,
            effects: Effects { kiai: false, omit_barline: false },
        }
    }
}

impl TimingPoint {
    /// Reads a timing-point record. No white space is trimmed.
    pub fn decode(line: &[u8]) -> (r: Result<TimingPoint, DecodeError>)
        ensures
            plain(r) == spec_timing_point(line@),
            r is Ok ==> r->Ok_0.beat_length.wf(),
    {
        let fields = split_fields(line, COMMA);
        let n = fields.len();
        if n != 2 && n != 6 && n != 7 && n != 8 {
            return Err(DecodeError::miscount(n, line));
        }
        assert(views(fields@)[0] == fields@[0]@);
        assert(views(fields@)[1] == fields@[1]@);
        let time = match decode_int(fields[0]) {
            Err(e) => {
                return Err(e);
            },
            Ok(v) => v,
        };
        let beat_length = match decode_signed_decimal(fields[1]) {
            Err(e) => {
                return Err(e);
            },
            Ok(v) => v,
        };
        let effects_none = Effects { kiai: false, omit_barline: false };
        if n == 2 {
            return Ok(
                TimingPoint {
                    time,
                    beat_length,
                    meter: 4,
                    sample_set: SampleSet::Default,
                    sample_index: 0,
                    volume: 100,
                    uninherited: true,
                    effects: effects_none,
                },
            );
        }
        assert(views(fields@)[2] == fields@[2]@);
        assert(views(fields@)[3] == fields@[3]@);
        assert(views(fields@)[4] == fields@[4]@);
        assert(views(fields@)[5] == fields@[5]@);
        let meter = match decode_int(fields[2]) {
            Err(e) => {
                return Err(e);
            },
            Ok(v) => v,
        };
        let sample_set = match SampleSet::decode(fields[3]) {
            Err(e) => {
                return Err(e);
            },
            Ok(v) => v,
        };
        let sample_index = match decode_int(fields[4]) {
            Err(e) => {
                return Err(e);
            },
            Ok(v) => v,
        };
        let volume = match decode_int(fields[5]) {
            Err(e) => {
                return Err(e);
            },
            Ok(v) => v,
        };
        let uninherited = if n >= 7 {
            assert(views(fields@)[6] == fields@[6]@);
            match decode_int(fields[6]) {
                Err(e) => {
                    return Err(e);
                },
                Ok(v) => v == 1,
            }
        } else {
            true
        };
        let effects = if n >= 8 {
            assert(views(fields@)[7] == fields@[7]@);
            match Effects::decode(fields[7]) {
                Err(e) => {
                    return Err(e);
                },
                Ok(v) => v,
            }
        } else {
            effects_none
        };
        Ok(
            TimingPoint {
                time,
                beat_length,
                meter,
                sample_set,
                sample_index,
                volume,
                uninherited,
                effects,
            },
        )
    }
}

} // verus!
