//! `str::parse` for every record type: the bytes of the text are handed to
//! the type's own decoder.

use crate::curve::{spec_curve, spec_curve_type, Curve, CurveType};
use crate::customization::{
    spec_background,
    spec_break,
    spec_color,
    spec_countdown,
    spec_mode,
    spec_overlay_position,
    Background,
    Break,
    Color,
    Countdown,
    Mode,
    OverlayPosition,
};
use crate::error::{plain, viewed, DecodeError};
use crate::flags::{spec_effects, spec_hit_sound, spec_type, Effects, HitSound, Type};
use crate::hit_object::{
    spec_circle,
    spec_hit_object,
    spec_slider,
    spec_spinner,
    Circle,
    HitObject,
    Slider,
    Spinner,
};
use crate::sample::{
    spec_half_hit_sample,
    spec_hit_sample,
    spec_sample_set,
    HalfHitSample,
    HitSample,
    SampleSet,
};
use crate::timing_point::{spec_timing_point, TimingPoint};
use vstd::prelude::*;
use vstd::string::StringSliceAdditionalSpecFns;

verus! {

impl std::str::FromStr for Type {
    type Err = DecodeError;

    fn from_str(s: &str) -> (r: Result<Type, DecodeError>)
        ensures
            plain(r) == spec_type(s.spec_bytes()),
    {
        Type::decode(s.as_bytes())
    }
}

impl std::str::FromStr for HitSound {
    type Err = DecodeError;

    fn from_str(s: &str) -> (r: Result<HitSound, DecodeError>)
        ensures
            plain(r) == spec_hit_sound(s.spec_bytes()),
    {
        HitSound::decode(s.as_bytes())
    }
}

impl std::str::FromStr for Effects {
    type Err = DecodeError;

    fn from_str(s: &str) -> (r: Result<Effects, DecodeError>)
        ensures
            plain(r) == spec_effects(s.spec_bytes()),
    {
        Effects::decode(s.as_bytes())
    }
}

impl std::str::FromStr for SampleSet {
    type Err = DecodeError;

    fn from_str(s: &str) -> (r: Result<SampleSet, DecodeError>)
        ensures
            plain(r) == spec_sample_set(s.spec_bytes()),
    {
        SampleSet::decode(s.as_bytes())
    }
}

impl std::str::FromStr for HalfHitSample {
    type Err = DecodeError;

    fn from_str(s: &str) -> (r: Result<HalfHitSample, DecodeError>)
        ensures
            plain(r) == spec_half_hit_sample(s.spec_bytes()),
    {
        HalfHitSample::decode(s.as_bytes())
    }
}

impl std::str::FromStr for HitSample {
    type Err = DecodeError;

    fn from_str(s: &str) -> (r: Result<HitSample, DecodeError>)
        ensures
            viewed(r) == spec_hit_sample(s.spec_bytes()),
    {
        HitSample::decode(s.as_bytes())
    }
}

impl std::str::FromStr for CurveType {
    type Err = DecodeError;

    fn from_str(s: &str) -> (r: Result<CurveType, DecodeError>)
        ensures
            plain(r) == spec_curve_type(s.spec_bytes()),
    {
        CurveType::decode(s.as_bytes())
    }
}

impl std::str::FromStr for Curve {
    type Err = DecodeError;

    fn from_str(s: &str) -> (r: Result<Curve, DecodeError>)
        ensures
            viewed(r) == spec_curve(s.spec_bytes()),
    {
        Curve::decode(s.as_bytes())
    }
}

impl std::str::FromStr for Circle {
    type Err = DecodeError;

    fn from_str(s: &str) -> (r: Result<Circle, DecodeError>)
        ensures
            viewed(r) == spec_circle(s.spec_bytes()),
    {
        Circle::decode(s.as_bytes())
    }
}

impl std::str::FromStr for Slider {
    type Err = DecodeError;

    fn from_str(s: &str) -> (r: Result<Slider, DecodeError>)
        ensures
            viewed(r) == spec_slider(s.spec_bytes()),
    {
        Slider::decode(s.as_bytes())
    }
}

impl std::str::FromStr for Spinner {
    type Err = DecodeError;

    fn from_str(s: &str) -> (r: Result<Spinner, DecodeError>)
        ensures
            viewed(r) == spec_spinner(s.spec_bytes()),
    {
        Spinner::decode(s.as_bytes())
    }
}

impl std::str::FromStr for HitObject {
    type Err = DecodeError;

    fn from_str(s: &str) -> (r: Result<HitObject, DecodeError>)
        ensures
            viewed(r) == spec_hit_object(s.spec_bytes()),
    {
        HitObject::decode(s.as_bytes())
    }
}

impl std::str::FromStr for TimingPoint {
    type Err = DecodeError;

    fn from_str(s: &str) -> (r: Result<TimingPoint, DecodeError>)
        ensures
            plain(r) == spec_timing_point(s.spec_bytes()),
    {
        TimingPoint::decode(s.as_bytes())
    }
}

impl std::str::FromStr for Mode {
    type Err = DecodeError;

    fn from_str(s: &str) -> (r: Result<Mode, DecodeError>)
        ensures
            plain(r) == spec_mode(s.spec_bytes()),
    {
        Mode::decode(s.as_bytes())
    }
}

impl std::str::FromStr for Countdown {
    type Err = DecodeError;

    fn from_str(s: &str) -> (r: Result<Countdown, DecodeError>)
        ensures
            plain(r) == spec_countdown(s.spec_bytes()),
    {
        Countdown::decode(s.as_bytes())
    }
}

impl std::str::FromStr for OverlayPosition {
    type Err = DecodeError;

    fn from_str(s: &str) -> (r: Result<OverlayPosition, DecodeError>)
        ensures
            plain(r) == spec_overlay_position(s.spec_bytes()),
    {
        OverlayPosition::decode(s.as_bytes())
    }
}

impl std::str::FromStr for Break {
    type Err = DecodeError;

    fn from_str(s: &str) -> (r: Result<Break, DecodeError>)
        ensures
            plain(r) == spec_break(s.spec_bytes()),
    {
        Break::decode(s.as_bytes())
    }
}

impl std::str::FromStr for Background {
    type Err = DecodeError;

    fn from_str(s: &str) -> (r: Result<Background, DecodeError>)
        ensures
            viewed(r) == spec_background(s.spec_bytes()),
    {
        Background::decode(s.as_bytes())
    }
}

impl std::str::FromStr for Color {
    type Err = DecodeError;

    fn from_str(s: &str) -> (r: Result<Color, DecodeError>)
        ensures
            plain(r) == spec_color(s.spec_bytes()),
    {
        Color::decode(s.as_bytes())
    }
}

} // verus!
