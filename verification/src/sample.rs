//! Sample descriptors: which sample set plays, and with which index,
//! volume and custom file.

use crate::error::{failure, miscount, plain, viewed, DecodeError, ErrorKind, Failure};
use crate::text::{
    cut,
    cut_at,
    decode_int,
    is_blank,
    spec_int,
    split,
    split_fields,
    trim_bytes,
    views,
    COLON,
};
use vstd::prelude::*;
use vstd::slice::slice_to_vec;

verus! {

/// A set of samples.
#[derive(Debug, Copy, Clone, PartialEq, Eq, Structural)]
pub enum SampleSet {
    Default,
    Normal,
    Soft,
    Drum,
}

/// The sample sets of one slider edge.
#[derive(Debug, Copy, Clone, PartialEq, Eq, Structural)]
pub struct HalfHitSample {
    pub normal_set: SampleSet,
    pub addition_set: SampleSet,
}

/// The sample descriptor that ends a hit-object record.
#[derive(Debug, Clone, PartialEq, Eq)]
pub struct HitSample {
    pub normal_set: SampleSet,
    pub addition_set: SampleSet,
    pub index: i64,
    pub volume: i64,
    pub filename: Option<Vec<u8>>,
}

/// The mathematical content of a [`HitSample`].
pub struct HitSampleView {
    pub normal_set: SampleSet,
    pub addition_set: SampleSet,
    pub index: i64,
    pub volume: i64,
    pub filename: Option<Seq<u8>>,
}

impl View for HitSample {
    type V = HitSampleView;

    open spec fn view(&self) -> HitSampleView {
        HitSampleView {
            normal_set: self.normal_set,
            addition_set: self.addition_set,
            index: self.index,
            volume: self.volume,
            filename: match self.filename {
                Some(name) => Some(name@),
                None => None,
            },
        }
    }
}

/// The sample set that the field `s` writes: one of the four texts `0`,
/// `1`, `2` and `3`.
pub open spec fn spec_sample_set(s: Seq<u8>) -> Result<SampleSet, Failure> {
    if s == seq![48u8] {
        Ok(SampleSet::Default)
    } else if s == seq![49u8] {
        Ok(SampleSet::Normal)
    } else if s == seq![50u8] {
        Ok(SampleSet::Soft)
    } else if s == seq![51u8] {
        Ok(SampleSet::Drum)
    } else {
        Err(failure(ErrorKind::EnumDecodeError, s))
    }
}

/// The edge sample sets that `s` writes: two sample sets with one colon
/// between them.
pub open spec fn spec_half_hit_sample(s: Seq<u8>) -> Result<HalfHitSample, Failure> {
    let parts = split(s, COLON);
    if parts.len() != 2 {
        Err(miscount(parts.len(), s))
    } else {
        match spec_sample_set(parts[0]) {
            Err(f) => Err(f),
            Ok(normal_set) => match spec_sample_set(parts[1]) {
                Err(f) => Err(f),
                Ok(addition_set) => Ok(HalfHitSample { normal_set, addition_set }),
            },
        }
    }
}

/// The sample descriptor with both sets default, index and volume zero and
/// no file.
pub open spec fn default_hit_sample() -> HitSampleView {
    HitSampleView {
        normal_set: SampleSet::Default,
        addition_set: SampleSet::Default,
        index: 0,
        volume: 0,
        filename: None,
    }
}

/// The volume and the file name that follow the third colon of a sample
/// descriptor. With no fourth colon both keep their defaults, whatever the
/// text; with one, the volume stands before it and the file name is all that
/// follows it, kept as it is unless it is blank.
pub open spec fn spec_sample_tail(s: Seq<u8>) -> Result<(i64, Option<Seq<u8>>), Failure> {
    match cut(s, COLON) {
        None => Ok((0i64, None)),
        Some((volume, name)) => match spec_int(volume) {
            Err(f) => Err(f),
            Ok(v) => Ok(
                (
                    v,
                    if is_blank(name) {
                        None
                    } else {
                        Some(name)
                    },
                ),
            ),
        },
    }
}

/// The sample descriptor that `s` writes: normal set, addition set and
/// index, each closed by a colon, then the optional volume and file name.
/// Where a colon is missing, the failure counts the parts that were found.
pub open spec fn spec_hit_sample(s: Seq<u8>) -> Result<HitSampleView, Failure> {
    match cut(s, COLON) {
        None => Err(miscount(1, s)),
        Some((first, after_first)) => match spec_sample_set(first) {
            Err(f) => Err(f),
            Ok(normal_set) => match cut(after_first, COLON) {
                None => Err(miscount(2, s)),
                Some((second, after_second)) => match spec_sample_set(second) {
                    Err(f) => Err(f),
                    Ok(addition_set) => match cut(after_second, COLON) {
                        None => Err(miscount(3, s)),
                        Some((third, after_third)) => match spec_int(third) {
                            Err(f) => Err(f),
                            Ok(index) => match spec_sample_tail(after_third) {
                                Err(f) => Err(f),
                                Ok((volume, filename)) => Ok(
                                    HitSampleView {
                                        normal_set,
                                        addition_set,
                                        index,
                                        volume,
                                        filename,
                                    },
                                ),
                            },
                        },
                    },
                },
            },
        },
    }
}

/// The file name of a sample descriptor is kept byte for byte: it is all
/// that follows the fourth colon, white space included, and it is there
/// exactly where that text is not blank.
pub proof fn lemma_file_name_is_kept(s: Seq<u8>)
    requires
        spec_sample_tail(s) is Ok,
    ensures
        match cut(s, COLON) {
            Some((volume, name)) => spec_sample_tail(s)->Ok_0.1 == if is_blank(name) {
                None
            } else {
                Some(name)
            },
            None => spec_sample_tail(s)->Ok_0.1 is None,
        },
{
}

impl SampleSet {
    /// Reads a sample-set field.
    pub fn decode(s: &[u8]) -> (r: Result<SampleSet, DecodeError>)
        ensures
            plain(r) == spec_sample_set(s@),
    {
        if s.len() == 1 {
            let b = s[0];
            assert(s@ =~= seq![b]);
            if b == 48 {
                return Ok(SampleSet::Default);
            } else if b == 49 {
                return Ok(SampleSet::Normal);
            } else if b == 50 {
                return Ok(SampleSet::Soft);
            } else if b == 51 {
                return Ok(SampleSet::Drum);
            }
            assert(seq![48u8][0] == 48 && seq![49u8][0] == 49 && seq![50u8][0] == 50 && seq![
                51u8,
            ][0] == 51);
        } else {
            assert(seq![48u8].len() == 1 && seq![49u8].len() == 1 && seq![50u8].len() == 1
                && seq![51u8].len() == 1);
        }
        Err(DecodeError::new(ErrorKind::EnumDecodeError, s))
    }
}

impl Default for HalfHitSample {
    fn default() -> (r: HalfHitSample)
        ensures
            r == (HalfHitSample {
                normal_set: SampleSet::Default,
                addition_set: SampleSet::Default,
            }),
    {
        HalfHitSample { normal_set: SampleSet::Default, addition_set: SampleSet::Default }
    }
}

impl HalfHitSample {
    /// Reads the sample sets of one slider edge.
    pub fn decode(s: &[u8]) -> (r: Result<HalfHitSample, DecodeError>)
        ensures
            plain(r) == spec_half_hit_sample(s@),
    {
        let parts = split_fields(s, COLON);
        assert(views(parts@).len() == parts@.len());
        if parts.len() != 2 {
            return Err(DecodeError::miscount(parts.len(), s));
        }
        assert(views(parts@)[0] == parts@[0]@);
        assert(views(parts@)[1] == parts@[1]@);
        let normal_set = match SampleSet::decode(parts[0]) {
            Err(e) => {
                return Err(e);
            },
            Ok(v) => v,
        };
        let addition_set = match SampleSet::decode(parts[1]) {
            Err(e) => {
                return Err(e);
            },
            Ok(v) => v,
        };
        Ok(HalfHitSample { normal_set, addition_set })
    }
}

impl Default for HitSample {
    fn default() -> (r: HitSample)
        ensures
            r@ == default_hit_sample(),
    {
        HitSample {
            normal_set: SampleSet::Default,
            addition_set: SampleSet::Default,
            index: 0,
            volume: 0,
            filename: None,
        }
    }
}

impl HitSample {
    /// Reads a sample descriptor.
    pub fn decode(s: &[u8]) -> (r: Result<HitSample, DecodeError>)
        ensures
            viewed(r) == spec_hit_sample(s@),
    {
        let (first, rest) = match cut_at(s, COLON) {
            None => {
                return Err(DecodeError::miscount(1, s));
            },
            Some(pair) => pair,
        };
        let normal_set = match SampleSet::decode(first) {
            Err(e) => {
                return Err(e);
            },
            Ok(v) => v,
        };
        let (second, rest) = match cut_at(rest, COLON) {
            None => {
                return Err(DecodeError::miscount(2, s));
            },
            Some(pair) => pair,
        };
        let addition_set = match SampleSet::decode(second) {
            Err(e) => {
                return Err(e);
            },
            Ok(v) => v,
        };
        let (third, rest) = match cut_at(rest, COLON) {
            None => {
                return Err(DecodeError::miscount(3, s));
            },
            Some(pair) => pair,
        };
        let index = match decode_int(third) {
            Err(e) => {
                return Err(e);
            },
            Ok(v) => v,
        };
        let (volume, filename) = match cut_at(rest, COLON) {
            None => (0i64, None),
            Some((fourth, name)) => {
                let volume = match decode_int(fourth) {
                    Err(e) => {
                        return Err(e);
                    },
                    Ok(v) => v,
                };
                let filename = if trim_bytes(name).len() == 0 {
                    None
                } else {
                    Some(slice_to_vec(name))
                };
                (volume, filename)
            },
        };
        Ok(HitSample { normal_set, addition_set, index, volume, filename })
    }
}

} // verus!
