//! What a file says besides its chart: game mode, countdown, overlay,
//! breaks, background and combo colours.

use crate::error::{failure, miscount, plain, viewed, DecodeError, ErrorKind, Failure};
use crate::sample::SampleSet;
use crate::text::{
    contains,
    decode_int,
    find_text,
    first_occurrence,
    int_literal,
    is_text,
    lemma_first_occurrence,
    parse_i64,
    spec_int,
    split,
    split_fields,
    views,
    COMMA,
    MINUS,
};
use vstd::prelude::*;
use vstd::slice::{slice_subrange, slice_to_vec};
use vstd::string::StringSliceAdditionalSpecFns;

verus! {

/// The game mode that a file is made for.
#[derive(Debug, Copy, Clone, PartialEq, Eq, Structural)]
pub enum Mode {
    Osu,
    Taiko,
    Catch,
    Mania,
}

/// The speed of the countdown before the first object.
#[derive(Debug, Copy, Clone, PartialEq, Eq, Structural)]
pub enum Countdown {
    Off,
    Normal,
    Half,
    Double,
}

/// Where the hit-circle overlay is drawn, relative to the numbers.
#[derive(Debug, Copy, Clone, PartialEq, Eq, Structural)]
pub enum OverlayPosition {
    NoChange,
    Below,
    Above,
}

/// A pause in play, from a start time to an end time in milliseconds.
#[derive(Debug, Copy, Clone, PartialEq, Eq, Structural)]
pub struct Break {
    pub start_time: i64,
    pub end_time: i64,
}

/// The background image and its offset from the centre of the screen.
#[derive(Debug, Clone, PartialEq, Eq)]
pub struct Background {
    pub filename: Vec<u8>,
    pub xoffset: i64,
    pub yoffset: i64,
}

/// A background video, from its start time on.
#[derive(Debug, Clone, PartialEq, Eq)]
pub struct Video {
    pub start_time: i64,
    pub filename: Vec<u8>,
    pub xoffset: i64,
    pub yoffset: i64,
}

/// A combo colour.
#[derive(Debug, Copy, Clone, PartialEq, Eq, Structural)]
pub struct Color {
    pub red: u8,
    pub green: u8,
    pub blue: u8,
}

/// The four difficulty settings, each as a whole number.
#[derive(Debug, Copy, Clone, PartialEq, Eq, Structural)]
pub struct Difficulty {
    pub circle_size: u8,
    pub hpdrain_rate: u8,
    pub overall_difficulty: u8,
    pub approach_rate: u8,
}

/// What a file says of itself and of its audio.
#[derive(Debug, Clone, PartialEq, Eq)]
pub struct Filedata {
    pub file_format: Option<u8>,
    pub audio_filename: Option<Vec<u8>>,
    pub audio_lead_in: Option<i64>,
    pub audio_hash: Option<Vec<u8>>,
    pub preview_time: Option<i64>,
    pub countdown_offset: Option<i64>,
}

/// How a file asks to be shown and heard.
#[derive(Debug, Clone, PartialEq, Eq)]
pub struct Customization {
    pub sample_set: Option<SampleSet>,
    pub letterbox_in_breaks: Option<bool>,
    pub story_fire_in_front: Option<bool>,
    pub use_skin_sprites: Option<bool>,
    pub always_show_play_field: Option<bool>,
    pub overlay_position: Option<OverlayPosition>,
    pub skin_preference: Option<Vec<u8>>,
    pub epilepsy_warning: Option<bool>,
    pub countdown: Option<Countdown>,
    pub special_style: Option<bool>,
    pub widescreen_storyboard: Option<bool>,
    pub samples_match_playback_rate: Option<bool>,
    pub background: Option<Background>,
    pub breaks: Option<Vec<Break>>,
    pub colors: Option<Vec<Color>>,
}

/// The mathematical content of a [`Background`].
pub struct BackgroundView {
    pub filename: Seq<u8>,
    pub xoffset: i64,
    pub yoffset: i64,
}

impl View for Background {
    type V = BackgroundView;

    open spec fn view(&self) -> BackgroundView {
        BackgroundView { filename: self.filename@, xoffset: self.xoffset, yoffset: self.yoffset }
    }
}

/// The game mode that the field `s` writes: one of the four texts `0`,
/// `1`, `2` and `3`.
pub open spec fn spec_mode(s: Seq<u8>) -> Result<Mode, Failure> {
    if s == seq![48u8] {
        Ok(Mode::Osu)
    } else if s == seq![49u8] {
        Ok(Mode::Taiko)
    } else if s == seq![50u8] {
        Ok(Mode::Catch)
    } else if s == seq![51u8] {
        Ok(Mode::Mania)
    } else {
        Err(failure(ErrorKind::EnumDecodeError, s))
    }
}

/// The countdown that the field `s` writes: one of the four texts `0`,
/// `1`, `2` and `3`.
pub open spec fn spec_countdown(s: Seq<u8>) -> Result<Countdown, Failure> {
    if s == seq![48u8] {
        Ok(Countdown::Off)
    } else if s == seq![49u8] {
        Ok(Countdown::Normal)
    } else if s == seq![50u8] {
        Ok(Countdown::Half)
    } else if s == seq![51u8] {
        Ok(Countdown::Double)
    } else {
        Err(failure(ErrorKind::EnumDecodeError, s))
    }
}

/// The overlay position that the field `s` writes: one of the three names.
pub open spec fn spec_overlay_position(s: Seq<u8>) -> Result<OverlayPosition, Failure> {
    if s == "NoChange".spec_bytes() {
        Ok(OverlayPosition::NoChange)
    } else if s == "Below".spec_bytes() {
        Ok(OverlayPosition::Below)
    } else if s == "Above".spec_bytes() {
        Ok(OverlayPosition::Above)
    } else {
        Err(failure(ErrorKind::EnumDecodeError, s))
    }
}

/// The break that the event `s` writes: after the event type, the start
/// time and the end time. Further fields are passed over.
pub open spec fn spec_break(s: Seq<u8>) -> Result<Break, Failure> {
    let fields = split(s, COMMA);
    if fields.len() < 3 {
        Err(miscount(fields.len(), s))
    } else {
        match spec_int(fields[1]) {
            Err(f) => Err(f),
            Ok(start_time) => match spec_int(fields[2]) {
                Err(f) => Err(f),
                Ok(end_time) => Ok(Break { start_time, end_time }),
            },
        }
    }
}

/// A field without its first and its last byte, which are its quotes; a
/// field of fewer than two bytes leaves nothing.
pub open spec fn unquoted(s: Seq<u8>) -> Seq<u8> {
    if s.len() >= 2 {
        s.subrange(1, s.len() - 1)
    } else {
        Seq::<u8>::empty()
    }
}

/// The integer of the field at index `i`, or zero where there is no such
/// field.
pub open spec fn spec_offset(fields: Seq<Seq<u8>>, i: int) -> Result<i64, Failure> {
    if i < fields.len() {
        spec_int(fields[i])
    } else {
        Ok(0i64)
    }
}

/// The background that the event `s` writes: after the event type and the
/// start time, the quoted file name, then the two offsets, each zero where
/// it is left out.
pub open spec fn spec_background(s: Seq<u8>) -> Result<BackgroundView, Failure> {
    let fields = split(s, COMMA);
    if fields.len() < 3 {
        Err(miscount(fields.len(), s))
    } else {
        match spec_offset(fields, 3) {
            Err(f) => Err(f),
            Ok(xoffset) => match spec_offset(fields, 4) {
                Err(f) => Err(f),
                Ok(yoffset) => Ok(
                    BackgroundView { filename: unquoted(fields[2]), xoffset, yoffset },
                ),
            },
        }
    }
}

/// The byte that the field `s` writes: an integer literal from 0 to 255
/// without a minus sign.
pub open spec fn spec_channel(s: Seq<u8>) -> Result<u8, Failure> {
    match int_literal(s) {
        Some(v) => if 0 <= v <= 255 && s[0] != MINUS {
            Ok(v as u8)
        } else {
            Err(failure(ErrorKind::NumericFormatError, s))
        },
        None => Err(failure(ErrorKind::NumericFormatError, s)),
    }
}

/// The text that stands between the name of a colour and its channels.
pub open spec fn color_mark() -> Seq<u8> {
    " : ".spec_bytes()
}

/// The channels of a colour line: what follows the first mark, up to the
/// next mark where there is one. `None` where the line holds no mark.
pub open spec fn color_channels(s: Seq<u8>) -> Option<Seq<u8>> {
    if !contains(s, color_mark()) {
        None
    } else {
        let rest = s.skip(first_occurrence(s, color_mark()) + color_mark().len());
        if contains(rest, color_mark()) {
            Some(rest.take(first_occurrence(rest, color_mark())))
        } else {
            Some(rest)
        }
    }
}

/// The colour that the line `s` writes: after the mark, red, green and
/// blue with commas between them. Further fields are passed over.
pub open spec fn spec_color(s: Seq<u8>) -> Result<Color, Failure> {
    match color_channels(s) {
        None => Err(miscount(1, s)),
        Some(channels) => {
            let fields = split(channels, COMMA);
            if fields.len() < 3 {
                Err(miscount(fields.len(), s))
            } else {
                match spec_channel(fields[0]) {
                    Err(f) => Err(f),
                    Ok(red) => match spec_channel(fields[1]) {
                        Err(f) => Err(f),
                        Ok(green) => match spec_channel(fields[2]) {
                            Err(f) => Err(f),
                            Ok(blue) => Ok(Color { red, green, blue }),
                        },
                    },
                }
            }
        },
    }
}

impl Mode {
    /// Reads a game-mode field.
    pub fn decode(s: &[u8]) -> (r: Result<Mode, DecodeError>)
        ensures
            plain(r) == spec_mode(s@),
    {
        if s.len() == 1 {
            let b = s[0];
            assert(s@ =~= seq![b]);
            if b == 48 {
                return Ok(Mode::Osu);
            } else if b == 49 {
                return Ok(Mode::Taiko);
            } else if b == 50 {
                return Ok(Mode::Catch);
            } else if b == 51 {
                return Ok(Mode::Mania);
            }
            assert(seq![48u8][0] == 48 && seq![49u8][0] == 49 && seq![50u8][0] == 50 && seq![
                51u8,
            ][0] == 51);
        } else {
            assert(seq![48u8].len() == 1 && seq![49u8].len() == 1 && seq![50u8].len() == 1
                && seq![51u8].len() == 1);
        }
        Err(DecodeError::new(ErrorKind::EnumDecodeError, s))
    }
}

impl Countdown {
    /// Reads a countdown field.
    pub fn decode(s: &[u8]) -> (r: Result<Countdown, DecodeError>)
        ensures
            plain(r) == spec_countdown(s@),
    {
        if s.len() == 1 {
            let b = s[0];
            assert(s@ =~= seq![b]);
            if b == 48 {
                return Ok(Countdown::Off);
            } else if b == 49 {
                return Ok(Countdown::Normal);
            } else if b == 50 {
                return Ok(Countdown::Half);
            } else if b == 51 {
                return Ok(Countdown::Double);
            }
            assert(seq![48u8][0] == 48 && seq![49u8][0] == 49 && seq![50u8][0] == 50 && seq![
                51u8,
            ][0] == 51);
        } else {
            assert(seq![48u8].len() == 1 && seq![49u8].len() == 1 && seq![50u8].len() == 1
                && seq![51u8].len() == 1);
        }
        Err(DecodeError::new(ErrorKind::EnumDecodeError, s))
    }
}

impl OverlayPosition {
    /// Reads an overlay-position field.
    pub fn decode(s: &[u8]) -> (r: Result<OverlayPosition, DecodeError>)
        ensures
            plain(r) == spec_overlay_position(s@),
    {
        if is_text(s, "NoChange") {
            Ok(OverlayPosition::NoChange)
        } else if is_text(s, "Below") {
            Ok(OverlayPosition::Below)
        } else if is_text(s, "Above") {
            Ok(OverlayPosition::Above)
        } else {
            Err(DecodeError::new(ErrorKind::EnumDecodeError, s))
        }
    }
}

impl Break {
    /// Reads a break event.
    pub fn decode(s: &[u8]) -> (r: Result<Break, DecodeError>)
        ensures
            plain(r) == spec_break(s@),
    {
        let fields = split_fields(s, COMMA);
        assert(views(fields@).len() == fields@.len());
        if fields.len() < 3 {
            return Err(DecodeError::miscount(fields.len(), s));
        }
        assert(views(fields@)[1] == fields@[1]@);
        assert(views(fields@)[2] == fields@[2]@);
        let start_time = match decode_int(fields[1]) {
            Err(e) => {
                return Err(e);
            },
            Ok(v) => v,
        };
        let end_time = match decode_int(fields[2]) {
            Err(e) => {
                return Err(e);
            },
            Ok(v) => v,
        };
        Ok(Break { start_time, end_time })
    }
}

/// Reads the integer of the field at index `i`, or zero where there is no
/// such field.
fn decode_offset(fields: &Vec<&[u8]>, i: usize) -> (r: Result<i64, DecodeError>)
    ensures
        plain(r) == spec_offset(views(fields@), i as int),
{
    if i < fields.len() {
        assert(views(fields@)[i as int] == fields@[i as int]@);
        decode_int(fields[i])
    } else {
        Ok(0)
    }
}

impl Background {
    /// Reads a background event.
    pub fn decode(s: &[u8]) -> (r: Result<Background, DecodeError>)
        ensures
            viewed(r) == spec_background(s@),
    {
        let fields = split_fields(s, COMMA);
        assert(views(fields@).len() == fields@.len());
        if fields.len() < 3 {
            return Err(DecodeError::miscount(fields.len(), s));
        }
        assert(views(fields@)[2] == fields@[2]@);
        let quoted = fields[2];
        let name = if quoted.len() >= 2 {
            slice_subrange(quoted, 1, quoted.len() - 1)
        } else {
            slice_subrange(quoted, 0, 0)
        };
        assert(name@ =~= unquoted(quoted@));
        let xoffset = match decode_offset(&fields, 3) {
            Err(e) => {
                return Err(e);
            },
            Ok(v) => v,
        };
        let yoffset = match decode_offset(&fields, 4) {
            Err(e) => {
                return Err(e);
            },
            Ok(v) => v,
        };
        Ok(Background { filename: slice_to_vec(name), xoffset, yoffset })
    }
}

/// Reads one channel of a colour.
fn decode_channel(s: &[u8]) -> (r: Result<u8, DecodeError>)
    ensures
        plain(r) == spec_channel(s@),
{
    match parse_i64(s) {
        Some(v) => if 0 <= v && v <= 255 && s[0] != MINUS {
            Ok(v as u8)
        } else {
            Err(DecodeError::new(ErrorKind::NumericFormatError, s))
        },
        None => Err(DecodeError::new(ErrorKind::NumericFormatError, s)),
    }
}

impl Color {
    /// Reads a colour line.
    pub fn decode(s: &[u8]) -> (r: Result<Color, DecodeError>)
        ensures
            plain(r) == spec_color(s@),
    {
        let mark = " : ".as_bytes();
        let at = match find_text(s, mark) {
            None => {
                return Err(DecodeError::miscount(1, s));
            },
            Some(i) => i,
        };
        proof {
            lemma_first_occurrence(s@, mark@, at as int);
            assert(crate::text::occurs_at(s@, mark@, at as int));
        }
        let width = mark.len();
        let n = s.len();
        assert(at + width <= n);
        let rest = slice_subrange(s, at + width, n);
        assert(rest@ =~= s@.skip(at + mark@.len()));
        let channels = match find_text(rest, mark) {
            None => rest,
            Some(end) => {
                proof {
                    lemma_first_occurrence(rest@, mark@, end as int);
                    assert(contains(rest@, mark@)) by {
                        assert(crate::text::occurs_at(rest@, mark@, end as int));
                    }
                }
                slice_subrange(rest, 0, end)
            },
        };
        assert(Some(channels@) == color_channels(s@)) by {
            assert(crate::text::occurs_at(s@, mark@, at as int));
        }
        let fields = split_fields(channels, COMMA);
        assert(views(fields@).len() == fields@.len());
        if fields.len() < 3 {
            return Err(DecodeError::miscount(fields.len(), s));
        }
        assert(views(fields@)[0] == fields@[0]@);
        assert(views(fields@)[1] == fields@[1]@);
        assert(views(fields@)[2] == fields@[2]@);
        let red = match decode_channel(fields[0]) {
            Err(e) => {
                return Err(e);
            },
            Ok(v) => v,
        };
        let green = match decode_channel(fields[1]) {
            Err(e) => {
                return Err(e);
            },
            Ok(v) => v,
        };
        let blue = match decode_channel(fields[2]) {
            Err(e) => {
                return Err(e);
            },
            Ok(v) => v,
        };
        Ok(Color { red, green, blue })
    }

    /// The three channels: red, green, blue.
    pub fn tuple(&self) -> (t: (u8, u8, u8))
        ensures
            t == (self.red, self.green, self.blue),
    {
        (self.red, self.green, self.blue)
    }
}

impl Difficulty {
    /// The difficulty with the given settings.
    pub fn new(circle_size: u8, hpdrain_rate: u8, overall_difficulty: u8, approach_rate: u8) -> (r:
        Difficulty)
        ensures
            r == (Difficulty { circle_size, hpdrain_rate, overall_difficulty, approach_rate }),
    {
        Difficulty { circle_size, hpdrain_rate, overall_difficulty, approach_rate }
    }
}

} // verus!
