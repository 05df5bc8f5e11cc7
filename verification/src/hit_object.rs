//! Hit objects: circles, sliders and spinners, each decoded from one
//! comma-separated record.

use crate::curve::{spec_curve, Curve, CurveView};
use crate::decimal::{decode_signed_decimal, lemma_decimal_ends_in_digit, spec_signed_decimal};
use crate::error::{miscount, viewed, DecodeError, Failure};
use crate::flags::{
    hit_sound_of_flags,
    spec_hit_sound,
    spec_type,
    HitSound,
    ObjectType,
    Type,
};
use crate::rational::Rational;
use crate::sample::{
    default_hit_sample,
    spec_half_hit_sample,
    spec_hit_sample,
    HalfHitSample,
    HitSample,
    HitSampleView,
    SampleSet,
};
use crate::text::{
    decode_all,
    decode_int,
    is_digit,
    leading_space,
    lemma_decode_all_prefix,
    lemma_int_ends_in_digit,
    lemma_position_bounds,
    lemma_space_bytes,
    lemma_split_first,
    lemma_split_last,
    position,
    spec_int,
    split,
    split_fields,
    trailing_space,
    views,
    COMMA,
    PIPE,
};
use vstd::prelude::*;

verus! {

/// The five fields that every hit-object record starts with.
#[derive(Debug, Copy, Clone, PartialEq, Eq, Structural)]
pub struct Common {
    pub x: i64,
    pub y: i64,
    pub time: i64,
    pub flags: Type,
    pub hit_sound: HitSound,
}

/// A circle: a single hit at a place and a time.
#[derive(Debug, Clone, PartialEq, Eq)]
pub struct Circle {
    pub x: i64,
    pub y: i64,
    pub time: i64,
    pub flags: Type,
    pub hit_sound: HitSound,
    pub hit_sample: HitSample,
}

/// A slider: a hit that follows a curve, back and forth `slides` times.
#[derive(Debug, Clone, PartialEq, Eq)]
pub struct Slider {
    pub x: i64,
    pub y: i64,
    pub time: i64,
    pub flags: Type,
    pub hit_sound: HitSound,
    pub curve: Curve,
    pub slides: i64,
    pub length: Rational,
    pub edge_sounds: Vec<HitSound>,
    pub edge_sets: Vec<HalfHitSample>,
    pub hit_sample: HitSample,
}

/// A spinner: a spin held from `time` to `end_time`.
#[derive(Debug, Clone, PartialEq, Eq)]
pub struct Spinner {
    pub x: i64,
    pub y: i64,
    pub time: i64,
    pub flags: Type,
    pub hit_sound: HitSound,
    pub end_time: i64,
    pub hit_sample: HitSample,
}

/// A playable object of a chart.
#[derive(Debug, Clone, PartialEq, Eq)]
pub enum HitObject {
    Circle(Circle),
    Slider(Slider),
    Spinner(Spinner),
}

/// The mathematical content of a [`Circle`].
pub struct CircleView {
    pub common: Common,
    pub hit_sample: HitSampleView,
}

/// The mathematical content of a [`Slider`].
pub struct SliderView {
    pub common: Common,
    pub curve: CurveView,
    pub slides: i64,
    pub length: Rational,
    pub edge_sounds: Seq<HitSound>,
    pub edge_sets: Seq<HalfHitSample>,
    pub hit_sample: HitSampleView,
}

/// The mathematical content of a [`Spinner`].
pub struct SpinnerView {
    pub common: Common,
    pub end_time: i64,
    pub hit_sample: HitSampleView,
}

/// The mathematical content of a [`HitObject`].
pub enum HitObjectView {
    Circle(CircleView),
    Slider(SliderView),
    Spinner(SpinnerView),
}

impl View for Circle {
    type V = CircleView;

    open spec fn view(&self) -> CircleView {
        CircleView {
            common: Common {
                x: self.x,
                y: self.y,
                time: self.time,
                flags: self.flags,
                hit_sound: self.hit_sound,
            },
            hit_sample: self.hit_sample@,
        }
    }
}

impl View for Slider {
    type V = SliderView;

    open spec fn view(&self) -> SliderView {
        SliderView {
            common: Common {
                x: self.x,
                y: self.y,
                time: self.time,
                flags: self.flags,
                hit_sound: self.hit_sound,
            },
            curve: self.curve@,
            slides: self.slides,
            length: self.length,
            edge_sounds: self.edge_sounds@,
            edge_sets: self.edge_sets@,
            hit_sample: self.hit_sample@,
        }
    }
}

impl View for Spinner {
    type V = SpinnerView;

    open spec fn view(&self) -> SpinnerView {
        SpinnerView {
            common: Common {
                x: self.x,
                y: self.y,
                time: self.time,
                flags: self.flags,
                hit_sound: self.hit_sound,
            },
            end_time: self.end_time,
            hit_sample: self.hit_sample@,
        }
    }
}

impl View for HitObject {
    type V = HitObjectView;

    open spec fn view(&self) -> HitObjectView {
        match self {
            HitObject::Circle(c) => HitObjectView::Circle(c@),
            HitObject::Slider(s) => HitObjectView::Slider(s@),
            HitObject::Spinner(s) => HitObjectView::Spinner(s@),
        }
    }
}

/// The five leading fields of the record `line`, whose fields are `fields`:
/// x, y, time, object type and hit sound.
pub open spec fn spec_common(fields: Seq<Seq<u8>>, line: Seq<u8>) -> Result<Common, Failure> {
    if fields.len() < 5 {
        Err(miscount(fields.len(), line))
    } else {
        match spec_int(fields[0]) {
            Err(f) => Err(f),
            Ok(x) => match spec_int(fields[1]) {
                Err(f) => Err(f),
                Ok(y) => match spec_int(fields[2]) {
                    Err(f) => Err(f),
                    Ok(time) => match spec_type(fields[3]) {
                        Err(f) => Err(f),
                        Ok(flags) => match spec_hit_sound(fields[4]) {
                            Err(f) => Err(f),
                            Ok(hit_sound) => Ok(Common { x, y, time, flags, hit_sound }),
                        },
                    },
                },
            },
        }
    }
}

/// The sample descriptor that an optional last field writes: the default
/// one where the field is absent or empty.
pub open spec fn spec_optional_sample(field: Option<Seq<u8>>) -> Result<HitSampleView, Failure> {
    match field {
        Some(s) => if s.len() == 0 {
            Ok(default_hit_sample())
        } else {
            spec_hit_sample(s)
        },
        None => Ok(default_hit_sample()),
    }
}

/// The circle that `line` writes: the five leading fields, then at most
/// one more, the sample descriptor.
pub open spec fn spec_circle(line: Seq<u8>) -> Result<CircleView, Failure> {
    let fields = split(line, COMMA);
    match spec_common(fields, line) {
        Err(f) => Err(f),
        Ok(common) => if fields.len() > 6 {
            Err(miscount(fields.len(), line))
        } else {
            match spec_optional_sample(
                if fields.len() == 6 {
                    Some(fields[5])
                } else {
                    None
                },
            ) {
                Err(f) => Err(f),
                Ok(hit_sample) => Ok(CircleView { common, hit_sample }),
            }
        },
    }
}

/// The spinner that `line` writes: the five leading fields, the end time,
/// then at most one more field, the sample descriptor.
pub open spec fn spec_spinner(line: Seq<u8>) -> Result<SpinnerView, Failure> {
    let fields = split(line, COMMA);
    match spec_common(fields, line) {
        Err(f) => Err(f),
        Ok(common) => if fields.len() != 6 && fields.len() != 7 {
            Err(miscount(fields.len(), line))
        } else {
            match spec_int(fields[5]) {
                Err(f) => Err(f),
                Ok(end_time) => match spec_optional_sample(
                    if fields.len() == 7 {
                        Some(fields[6])
                    } else {
                        None
                    },
                ) {
                    Err(f) => Err(f),
                    Ok(hit_sample) => Ok(SpinnerView { common, end_time, hit_sample }),
                },
            }
        },
    }
}

/// How one edge sound is read.
pub open spec fn edge_sound_reader() -> spec_fn(Seq<u8>) -> Result<HitSound, Failure> {
    |s: Seq<u8>| spec_hit_sound(s)
}

/// How the sample sets of one edge are read.
pub open spec fn edge_set_reader() -> spec_fn(Seq<u8>) -> Result<HalfHitSample, Failure> {
    |s: Seq<u8>| spec_half_hit_sample(s)
}

/// The edge sounds of a slider that writes none: the first edge silent,
/// the last one with the sound that the integer two packs.
pub open spec fn default_edge_sounds() -> Seq<HitSound> {
    seq![hit_sound_of_flags(0)->Ok_0, hit_sound_of_flags(2)->Ok_0]
}

/// The edge sample sets of a slider that writes none: two edges, each with
/// both sets default.
pub open spec fn default_edge_sets() -> Seq<HalfHitSample> {
    seq![
        HalfHitSample { normal_set: SampleSet::Default, addition_set: SampleSet::Default },
        HalfHitSample { normal_set: SampleSet::Default, addition_set: SampleSet::Default },
    ]
}

/// The edge sounds of a slider: those of its fourth field where it has
/// four or six fields after the leading five.
pub open spec fn spec_edge_sounds(tail: Seq<Seq<u8>>) -> Result<Seq<HitSound>, Failure> {
    if tail.len() == 4 || tail.len() == 6 {
        decode_all(split(tail[3], PIPE), edge_sound_reader())
    } else {
        Ok(default_edge_sounds())
    }
}

/// The edge sample sets of a slider: those of its fifth field where it has
/// six fields after the leading five.
pub open spec fn spec_edge_sets(tail: Seq<Seq<u8>>) -> Result<Seq<HalfHitSample>, Failure> {
    if tail.len() == 6 {
        decode_all(split(tail[4], PIPE), edge_set_reader())
    } else {
        Ok(default_edge_sets())
    }
}

/// The sample descriptor of a slider: that of its sixth field where it has
/// six fields after the leading five.
pub open spec fn spec_slider_sample(tail: Seq<Seq<u8>>) -> Result<HitSampleView, Failure> {
    if tail.len() == 6 {
        spec_hit_sample(tail[5])
    } else {
        Ok(default_hit_sample())
    }
}

/// The slider that `line` writes. The number of fields after the leading
/// five decides its shape: three give curve, slides and length; four add
/// the edge sounds; six add the edge sample sets and the sample descriptor.
/// Any other number is a failure.
pub open spec fn spec_slider(line: Seq<u8>) -> Result<SliderView, Failure> {
    let fields = split(line, COMMA);
    match spec_common(fields, line) {
        Err(f) => Err(f),
        Ok(common) => {
            let tail = fields.skip(5);
            if tail.len() != 3 && tail.len() != 4 && tail.len() != 6 {
                Err(miscount(tail.len(), line))
            } else {
                match spec_curve(tail[0]) {
                    Err(f) => Err(f),
                    Ok(curve) => match spec_int(tail[1]) {
                        Err(f) => Err(f),
                        Ok(slides) => match spec_signed_decimal(tail[2]) {
                            Err(f) => Err(f),
                            Ok(length) => match spec_edge_sounds(tail) {
                                Err(f) => Err(f),
                                Ok(edge_sounds) => match spec_edge_sets(tail) {
                                    Err(f) => Err(f),
                                    Ok(edge_sets) => match spec_slider_sample(tail) {
                                        Err(f) => Err(f),
                                        Ok(hit_sample) => Ok(
                                            SliderView {
                                                common,
                                                curve,
                                                slides,
                                                length,
                                                edge_sounds,
                                                edge_sets,
                                                hit_sample,
                                            },
                                        ),
                                    },
                                },
                            },
                        },
                    },
                }
            }
        },
    }
}

/// The hit object that `line` writes: the kind bits of its object type
/// decide whether it is read as a circle, a slider or a spinner.
pub open spec fn spec_hit_object(line: Seq<u8>) -> Result<HitObjectView, Failure> {
    match spec_common(split(line, COMMA), line) {
        Err(f) => Err(f),
        Ok(common) => match common.flags.object_type {
            ObjectType::Circle => match spec_circle(line) {
                Err(f) => Err(f),
                Ok(c) => Ok(HitObjectView::Circle(c)),
            },
            ObjectType::Slider => match spec_slider(line) {
                Err(f) => Err(f),
                Ok(s) => Ok(HitObjectView::Slider(s)),
            },
            ObjectType::Spinner => match spec_spinner(line) {
                Err(f) => Err(f),
                Ok(s) => Ok(HitObjectView::Spinner(s)),
            },
        },
    }
}

/// Where the five leading fields of a slider record decode, its shape
/// follows from the number of fields after them, and curve, slides and
/// length are read from the first three of those. With three, the edge
/// sounds, the edge sample sets and the sample descriptor are the
/// defaults. With four, the edge sounds are those of the fourth field and
/// the other two are the defaults. With six, all three are read from the
/// fourth, fifth and sixth field. With any other number the record fails,
/// and the failure names that number.
pub proof fn lemma_slider_dispatch(line: Seq<u8>)
    requires
        spec_common(split(line, COMMA), line) is Ok,
    ensures
        ({
            let tail = split(line, COMMA).skip(5);
            let r = spec_slider(line);
            &&& tail.len() != 3 && tail.len() != 4 && tail.len() != 6 ==> r == Err::<
                SliderView,
                Failure,
            >(miscount(tail.len(), line))
            &&& r is Ok ==> {
                let s = r->Ok_0;
                &&& spec_curve(tail[0]) == Ok::<CurveView, Failure>(s.curve)
                &&& spec_int(tail[1]) == Ok::<i64, Failure>(s.slides)
                &&& spec_signed_decimal(tail[2]) == Ok::<Rational, Failure>(s.length)
                &&& tail.len() == 3 ==> s.edge_sounds == default_edge_sounds() && s.edge_sets
                    == default_edge_sets() && s.hit_sample == default_hit_sample()
                &&& tail.len() == 4 ==> decode_all(split(tail[3], PIPE), edge_sound_reader())
                    == Ok::<Seq<HitSound>, Failure>(s.edge_sounds) && s.edge_sets
                    == default_edge_sets() && s.hit_sample == default_hit_sample()
                &&& tail.len() == 6 ==> decode_all(split(tail[3], PIPE), edge_sound_reader())
                    == Ok::<Seq<HitSound>, Failure>(s.edge_sounds) && decode_all(
                    split(tail[4], PIPE),
                    edge_set_reader(),
                ) == Ok::<Seq<HalfHitSample>, Failure>(s.edge_sets) && spec_hit_sample(tail[5])
                    == Ok::<HitSampleView, Failure>(s.hit_sample)
            }
        }),
        default_edge_sounds().len() == 2,
        default_edge_sets().len() == 2,
{
}

/// A hit-object record that starts with white space is refused: nothing is
/// trimmed before the fields are cut.
pub proof fn lemma_leading_space_is_refused(line: Seq<u8>)
    requires
        leading_space(line) > 0,
    ensures
        spec_hit_object(line) is Err,
        spec_circle(line) is Err,
        spec_slider(line) is Err,
        spec_spinner(line) is Err,
{
    lemma_field_with_leading_space(line);
}

/// A hit-object record that ends in white space is refused where its last
/// field is no sample descriptor: a circle of five fields, a spinner of
/// six, a slider of eight or nine. (The file name of a sample descriptor
/// keeps its white space, so a longer record may end in it.)
pub proof fn lemma_trailing_space_is_refused(line: Seq<u8>)
    requires
        trailing_space(line) > 0,
    ensures
        split(line, COMMA).len() == 5 ==> spec_circle(line) is Err && spec_hit_object(line) is Err,
        split(line, COMMA).len() == 6 ==> spec_spinner(line) is Err,
        split(line, COMMA).len() == 8 || split(line, COMMA).len() == 9 ==> spec_slider(line) is Err,
{
    lemma_space_bytes(line);
    lemma_split_last(line, COMMA);
    let fields = split(line, COMMA);
    let last = fields.last();
    lemma_int_ends_in_digit(last);
    lemma_decimal_ends_in_digit(last);
    if fields.len() == 9 {
        let tail = fields.skip(5);
        assert(tail[3] == last);
        lemma_split_last(last, PIPE);
        let tokens = split(last, PIPE);
        lemma_int_ends_in_digit(tokens.last());
        assert(edge_sound_reader()(tokens.last()) is Err);
        assert(decode_all(tokens, edge_sound_reader()) is Err);
    }
    if fields.len() == 8 {
        let tail = fields.skip(5);
        assert(tail[2] == last);
    }
}

/// The first field of a line that starts with white space writes no
/// integer.
pub proof fn lemma_field_with_leading_space(line: Seq<u8>)
    requires
        leading_space(line) > 0,
    ensures
        spec_int(split(line, COMMA)[0]) is Err,
{
    lemma_space_bytes(line);
    lemma_split_first(line, COMMA);
    lemma_position_bounds(line, COMMA);
    let first = split(line, COMMA)[0];
    assert(position(line, COMMA) > 0);
    assert(first[0] == line[0]);
    assert(!is_digit(first[0]));
}

/// Reads the five leading fields of a record.
fn decode_common(fields: &Vec<&[u8]>, line: &[u8]) -> (r: Result<Common, DecodeError>)
    ensures
        crate::error::plain(r) == spec_common(views(fields@), line@),
{
    if fields.len() < 5 {
        return Err(DecodeError::miscount(fields.len(), line));
    }
    assert(views(fields@)[0] == fields@[0]@);
    assert(views(fields@)[1] == fields@[1]@);
    assert(views(fields@)[2] == fields@[2]@);
    assert(views(fields@)[3] == fields@[3]@);
    assert(views(fields@)[4] == fields@[4]@);
    let x = match decode_int(fields[0]) {
        Err(e) => {
            return Err(e);
        },
        Ok(v) => v,
    };
    let y = match decode_int(fields[1]) {
        Err(e) => {
            return Err(e);
        },
        Ok(v) => v,
    };
    let time = match decode_int(fields[2]) {
        Err(e) => {
            return Err(e);
        },
        Ok(v) => v,
    };
    let flags = match Type::decode(fields[3]) {
        Err(e) => {
            return Err(e);
        },
        Ok(v) => v,
    };
    let hit_sound = match HitSound::decode(fields[4]) {
        Err(e) => {
            return Err(e);
        },
        Ok(v) => v,
    };
    Ok(Common { x, y, time, flags, hit_sound })
}

/// Reads an optional last field as a sample descriptor.
fn decode_optional_sample(field: Option<&[u8]>) -> (r: Result<HitSample, DecodeError>)
    ensures
        viewed(r) == spec_optional_sample(
            match field {
                Some(s) => Some(s@),
                None => None,
            },
        ),
{
    match field {
        Some(s) => if s.len() == 0 {
            Ok(HitSample::default())
        } else {
            HitSample::decode(s)
        },
        None => Ok(HitSample::default()),
    }
}

/// Reads a pipe-separated list of edge sounds.
fn decode_edge_sounds(s: &[u8]) -> (r: Result<Vec<HitSound>, DecodeError>)
    ensures
        viewed(r) == decode_all(split(s@, PIPE), edge_sound_reader()),
{
    let tokens = split_fields(s, PIPE);
    let ghost all = views(tokens@);
    let mut sounds: Vec<HitSound> = Vec::new();
    let mut i: usize = 0;
    assert(all.take(0) =~= Seq::<Seq<u8>>::empty());
    while i < tokens.len()
        invariant
            i <= tokens.len(),
            all == views(tokens@),
            all == split(s@, PIPE),
            decode_all(all.take(i as int), edge_sound_reader()) == Ok::<Seq<HitSound>, Failure>(
                sounds@,
            ),
        decreases tokens.len() - i,
    {
        proof {
            let next = all.take(i + 1);
            assert(next.drop_last() =~= all.take(i as int));
            assert(next.last() == tokens@[i as int]@);
        }
        let sound = match HitSound::decode(tokens[i]) {
            Err(e) => {
                proof {
                    lemma_decode_all_prefix(all, edge_sound_reader(), i + 1);
                }
                return Err(e);
            },
            Ok(v) => v,
        };
        sounds.push(sound);
        i = i + 1;
    }
    assert(all.take(tokens.len() as int) =~= all);
    Ok(sounds)
}

/// Reads a pipe-separated list of edge sample sets.
fn decode_edge_sets(s: &[u8]) -> (r: Result<Vec<HalfHitSample>, DecodeError>)
    ensures
        viewed(r) == decode_all(split(s@, PIPE), edge_set_reader()),
{
    let tokens = split_fields(s, PIPE);
    let ghost all = views(tokens@);
    let mut sets: Vec<HalfHitSample> = Vec::new();
    let mut i: usize = 0;
    assert(all.take(0) =~= Seq::<Seq<u8>>::empty());
    while i < tokens.len()
        invariant
            i <= tokens.len(),
            all == views(tokens@),
            all == split(s@, PIPE),
            decode_all(all.take(i as int), edge_set_reader()) == Ok::<Seq<HalfHitSample>, Failure>(
                sets@,
            ),
        decreases tokens.len() - i,
    {
        proof {
            let next = all.take(i + 1);
            assert(next.drop_last() =~= all.take(i as int));
            assert(next.last() == tokens@[i as int]@);
        }
        let set = match HalfHitSample::decode(tokens[i]) {
            Err(e) => {
                proof {
                    lemma_decode_all_prefix(all, edge_set_reader(), i + 1);
                }
                return Err(e);
            },
            Ok(v) => v,
        };
        sets.push(set);
        i = i + 1;
    }
    assert(all.take(tokens.len() as int) =~= all);
    Ok(sets)
}

impl Circle {
    /// Reads a circle record. No white space is trimmed.
    pub fn decode(line: &[u8]) -> (r: Result<Circle, DecodeError>)
        ensures
            viewed(r) == spec_circle(line@),
    {
        let fields = split_fields(line, COMMA);
        let common = match decode_common(&fields, line) {
            Err(e) => {
                return Err(e);
            },
            Ok(v) => v,
        };
        if fields.len() > 6 {
            return Err(DecodeError::miscount(fields.len(), line));
        }
        let last = if fields.len() == 6 {
            assert(views(fields@)[5] == fields@[5]@);
            Some(fields[5])
        } else {
            None
        };
        let hit_sample = match decode_optional_sample(last) {
            Err(e) => {
                return Err(e);
            },
            Ok(v) => v,
        };
        Ok(
            Circle {
                x: common.x,
                y: common.y,
                time: common.time,
                flags: common.flags,
                hit_sound: common.hit_sound,
                hit_sample,
            },
        )
    }
}

impl Spinner {
    /// Reads a spinner record. No white space is trimmed.
    pub fn decode(line: &[u8]) -> (r: Result<Spinner, DecodeError>)
        ensures
            viewed(r) == spec_spinner(line@),
    {
        let fields = split_fields(line, COMMA);
        let common = match decode_common(&fields, line) {
            Err(e) => {
                return Err(e);
            },
            Ok(v) => v,
        };
        if fields.len() != 6 && fields.len() != 7 {
            return Err(DecodeError::miscount(fields.len(), line));
        }
        assert(views(fields@)[5] == fields@[5]@);
        let end_time = match decode_int(fields[5]) {
            Err(e) => {
                return Err(e);
            },
            Ok(v) => v,
        };
        let last = if fields.len() == 7 {
            assert(views(fields@)[6] == fields@[6]@);
            Some(fields[6])
        } else {
            None
        };
        let hit_sample = match decode_optional_sample(last) {
            Err(e) => {
                return Err(e);
            },
            Ok(v) => v,
        };
        Ok(
            Spinner {
                x: common.x,
                y: common.y,
                time: common.time,
                flags: common.flags,
                hit_sound: common.hit_sound,
                end_time,
                hit_sample,
            },
        )
    }
}

impl Slider {
    /// Reads a slider record. No white space is trimmed, but for what the
    /// file name of the sample descriptor keeps.
    pub fn decode(line: &[u8]) -> (r: Result<Slider, DecodeError>)
        ensures
            viewed(r) == spec_slider(line@),
            r is Ok ==> r->Ok_0@.curve.wf() && r->Ok_0@.length.wf(),
    {
        let fields = split_fields(line, COMMA);
        let common = match decode_common(&fields, line) {
            Err(e) => {
                return Err(e);
            },
            Ok(v) => v,
        };
        let count = fields.len() - 5;
        let ghost tail = views(fields@).skip(5);
        assert(tail.len() == count);
        if count != 3 && count != 4 && count != 6 {
            return Err(DecodeError::miscount(count, line));
        }
        assert(tail[0] == fields@[5]@);
        assert(tail[1] == fields@[6]@);
        assert(tail[2] == fields@[7]@);
        let curve = match Curve::decode(fields[5]) {
            Err(e) => {
                return Err(e);
            },
            Ok(v) => v,
        };
        let slides = match decode_int(fields[6]) {
            Err(e) => {
                return Err(e);
            },
            Ok(v) => v,
        };
        let length = match decode_signed_decimal(fields[7]) {
            Err(e) => {
                return Err(e);
            },
            Ok(v) => v,
        };
        let edge_sounds = if count == 4 || count == 6 {
            assert(tail[3] == fields@[8]@);
            match decode_edge_sounds(fields[8]) {
                Err(e) => {
                    return Err(e);
                },
                Ok(v) => v,
            }
        } else {
            let mut sounds: Vec<HitSound> = Vec::new();
            sounds.push(HitSound { normal: false, whistle: false, finish: false, clap: false });
            sounds.push(HitSound { normal: false, whistle: true, finish: false, clap: false });
            assert(sounds@ =~= default_edge_sounds());
            sounds
        };
        let edge_sets = if count == 6 {
            assert(tail[4] == fields@[9]@);
            match decode_edge_sets(fields[9]) {
                Err(e) => {
                    return Err(e);
                },
                Ok(v) => v,
            }
        } else {
            let mut sets: Vec<HalfHitSample> = Vec::new();
            sets.push(HalfHitSample::default());
            sets.push(HalfHitSample::default());
            assert(sets@ =~= default_edge_sets());
            sets
        };
        let hit_sample = if count == 6 {
            assert(tail[5] == fields@[10]@);
            match HitSample::decode(fields[10]) {
                Err(e) => {
                    return Err(e);
                },
                Ok(v) => v,
            }
        } else {
            HitSample::default()
        };
        Ok(
            Slider {
                x: common.x,
                y: common.y,
                time: common.time,
                flags: common.flags,
                hit_sound: common.hit_sound,
                curve,
                slides,
                length,
                edge_sounds,
                edge_sets,
                hit_sample,
            },
        )
    }
}

impl HitObject {
    /// Reads a hit-object record, as the kind that its object type names.
    pub fn decode(line: &[u8]) -> (r: Result<HitObject, DecodeError>)
        ensures
            viewed(r) == spec_hit_object(line@),
    {
        let fields = split_fields(line, COMMA);
        let common = match decode_common(&fields, line) {
            Err(e) => {
                return Err(e);
            },
            Ok(v) => v,
        };
        match common.flags.object_type {
            ObjectType::Circle => match Circle::decode(line) {
                Err(e) => Err(e),
                Ok(c) => Ok(HitObject::Circle(c)),
            },
            ObjectType::Slider => match Slider::decode(line) {
                Err(e) => Err(e),
                Ok(s) => Ok(HitObject::Slider(s)),
            },
            ObjectType::Spinner => match Spinner::decode(line) {
                Err(e) => Err(e),
                Ok(s) => Ok(HitObject::Spinner(s)),
            },
        }
    }
}

/// What is placed in time.
pub trait Time {
    /// The time, in milliseconds from the start of the audio.
    spec fn spec_time(&self) -> i64;

    /// The time, in milliseconds from the start of the audio.
    fn time(&self) -> (t: i64)
        ensures
            t == self.spec_time(),
    ;
}

impl Time for Circle {
    open spec fn spec_time(&self) -> i64 {
        self.time
    }

    fn time(&self) -> (t: i64) {
        self.time
    }
}

impl Time for Slider {
    open spec fn spec_time(&self) -> i64 {
        self.time
    }

    fn time(&self) -> (t: i64) {
        self.time
    }
}

impl Time for Spinner {
    open spec fn spec_time(&self) -> i64 {
        self.time
    }

    fn time(&self) -> (t: i64) {
        self.time
    }
}

impl Time for HitObject {
    open spec fn spec_time(&self) -> i64 {
        match self {
            HitObject::Circle(c) => c.time,
            HitObject::Slider(s) => s.time,
            HitObject::Spinner(s) => s.time,
        }
    }

    fn time(&self) -> (t: i64) {
        match self {
            HitObject::Circle(c) => c.time,
            HitObject::Slider(s) => s.time,
            HitObject::Spinner(s) => s.time,
        }
    }
}

} // verus!
