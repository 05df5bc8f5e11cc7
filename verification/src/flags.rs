//! The bit-packed fields of a record: the object type, the hit sound and
//! the effects of a timing point.

use crate::error::{failure, plain, DecodeError, ErrorKind, Failure};
use crate::text::{i64_literal, parse_i64};
use vstd::prelude::*;

verus! {

/// What kind of hit object a record describes.
#[derive(Debug, Copy, Clone, PartialEq, Eq, Structural)]
pub enum ObjectType {
    Circle,
    Slider,
    Spinner,
}

/// The decoded object-type field: the kind, whether a new combo starts, and
/// how many combo colours are skipped.
#[derive(Debug, Copy, Clone, PartialEq, Eq, Structural)]
pub struct Type {
    pub object_type: ObjectType,
    pub new_combo: bool,
    pub color_skip: u8,
}

/// The decoded hit-sound field.
#[derive(Debug, Copy, Clone, PartialEq, Eq, Structural)]
pub struct HitSound {
    pub normal: bool,
    pub whistle: bool,
    pub finish: bool,
    pub clap: bool,
}

/// The decoded effects field of a timing point.
#[derive(Debug, Copy, Clone, PartialEq, Eq, Structural)]
pub struct Effects {
    pub kiai: bool,
    pub omit_barline: bool,
}

/// Whether the bit of the given weight (a power of two) is set in `n`.
pub open spec fn bit(n: int, weight: int) -> bool {
    (n / weight) % 2 == 1
}

/// How many of the three kind bits (circle, slider, spinner) are set in `n`.
pub open spec fn kind_bits(n: int) -> int {
    (if bit(n, 1) {
        1int
    } else {
        0int
    }) + (if bit(n, 2) {
        1int
    } else {
        0int
    }) + (if bit(n, 8) {
        1int
    } else {
        0int
    })
}

/// The colour-skip count that `n` packs: the three-bit number in bits 4 to
/// 6, with bit 4 its lowest bit.
pub open spec fn color_skip_of(n: int) -> u8 {
    ((n / 16) % 8) as u8
}

/// The object type that the integer `n` packs. Bit 0 is circle, bit 1
/// slider, bit 2 new combo, bit 3 spinner, bits 4 to 6 the colour skip and
/// bit 7 the hold note, which is refused.
pub open spec fn type_of_flags(n: int) -> Result<Type, ErrorKind> {
    if n < 0 || n > 255 {
        Err(ErrorKind::FlagRangeError)
    } else if bit(n, 128) {
        Err(ErrorKind::UnsupportedObjectKind)
    } else if kind_bits(n) != 1 {
        Err(ErrorKind::InvalidFlagCombination)
    } else {
        Ok(
            Type {
                object_type: if bit(n, 1) {
                    ObjectType::Circle
                } else if bit(n, 2) {
                    ObjectType::Slider
                } else {
                    ObjectType::Spinner
                },
                new_combo: bit(n, 4),
                color_skip: color_skip_of(n),
            },
        )
    }
}

/// The hit sound that the integer `n` packs: bit 0 is normal, bit 1
/// whistle, bit 2 finish and bit 3 clap.
pub open spec fn hit_sound_of_flags(n: int) -> Result<HitSound, ErrorKind> {
    if n < 0 || n > 15 {
        Err(ErrorKind::FlagRangeError)
    } else {
        Ok(HitSound { normal: bit(n, 1), whistle: bit(n, 2), finish: bit(n, 4), clap: bit(n, 8) })
    }
}

/// The result of reading an integer field and unpacking it.
pub open spec fn unpacked<T>(s: Seq<u8>, unpack: spec_fn(int) -> Result<T, ErrorKind>) -> Result<
    T,
    Failure,
> {
    match i64_literal(s) {
        None => Err(failure(ErrorKind::NumericFormatError, s)),
        Some(n) => match unpack(n as int) {
            Ok(v) => Ok(v),
            Err(kind) => Err(failure(kind, s)),
        },
    }
}

/// The object type that the field `s` writes.
pub open spec fn spec_type(s: Seq<u8>) -> Result<Type, Failure> {
    unpacked(s, |n: int| type_of_flags(n))
}

/// The hit sound that the field `s` writes.
pub open spec fn spec_hit_sound(s: Seq<u8>) -> Result<HitSound, Failure> {
    unpacked(s, |n: int| hit_sound_of_flags(n))
}

/// The effects that the field `s` writes: one of the four texts `0`, `1`,
/// `4` and `5`.
pub open spec fn spec_effects(s: Seq<u8>) -> Result<Effects, Failure> {
    if s == seq![48u8] {
        Ok(Effects { kiai: false, omit_barline: false })
    } else if s == seq![49u8] {
        Ok(Effects { kiai: true, omit_barline: false })
    } else if s == seq![52u8] {
        Ok(Effects { kiai: false, omit_barline: true })
    } else if s == seq![53u8] {
        Ok(Effects { kiai: true, omit_barline: true })
    } else {
        Err(failure(ErrorKind::EnumDecodeError, s))
    }
}

impl Type {
    /// Whether the colour skip is a three-bit count.
    pub open spec fn wf(&self) -> bool {
        self.color_skip <= 7
    }

    /// The integer that packs this object type.
    pub open spec fn spec_flags(&self) -> int {
        (match self.object_type {
            ObjectType::Circle => 1int,
            ObjectType::Slider => 2int,
            ObjectType::Spinner => 8int,
        }) + (if self.new_combo {
            4int
        } else {
            0int
        }) + 16 * self.color_skip
    }

    /// Unpacks an object-type integer.
    pub fn from_flags(n: i64) -> (r: Result<Type, ErrorKind>)
        ensures
            r == type_of_flags(n as int),
            r is Ok ==> r->Ok_0.wf() && r->Ok_0.spec_flags() == n,
    {
        if n < 0 || n > 255 {
            return Err(ErrorKind::FlagRangeError);
        }
        let b = n as u8;
        if b / 128 % 2 == 1 {
            return Err(ErrorKind::UnsupportedObjectKind);
        }
        let circle = b % 2 == 1;
        let slider = b / 2 % 2 == 1;
        let spinner = b / 8 % 2 == 1;
        let object_type = if circle && !slider && !spinner {
            ObjectType::Circle
        } else if !circle && slider && !spinner {
            ObjectType::Slider
        } else if !circle && !slider && spinner {
            ObjectType::Spinner
        } else {
            return Err(ErrorKind::InvalidFlagCombination);
        };
        Ok(Type { object_type, new_combo: b / 4 % 2 == 1, color_skip: b / 16 % 8 })
    }

    /// Packs the object type back into its integer.
    pub fn flags(&self) -> (n: u8)
        requires
            self.wf(),
        ensures
            n == self.spec_flags(),
    {
        let kind: u8 = match self.object_type {
            ObjectType::Circle => 1,
            ObjectType::Slider => 2,
            ObjectType::Spinner => 8,
        };
        let combo: u8 = if self.new_combo {
            4
        } else {
            0
        };
        kind + combo + 16 * self.color_skip
    }

    /// Reads an object-type field.
    pub fn decode(s: &[u8]) -> (r: Result<Type, DecodeError>)
        ensures
            plain(r) == spec_type(s@),
            r is Ok ==> r->Ok_0.wf(),
    {
        match parse_i64(s) {
            None => Err(DecodeError::new(ErrorKind::NumericFormatError, s)),
            Some(n) => match Type::from_flags(n) {
                Ok(t) => Ok(t),
                Err(kind) => Err(DecodeError::new(kind, s)),
            },
        }
    }

    /// An object-type integer in range, with the hold bit clear and exactly
    /// one kind bit set, unpacks to flags that pack back into it.
    pub proof fn lemma_flags_round_trip(n: int)
        requires
            0 <= n <= 255,
            !bit(n, 128),
            kind_bits(n) == 1,
        ensures
            type_of_flags(n) is Ok,
            type_of_flags(n)->Ok_0.wf(),
            type_of_flags(n)->Ok_0.spec_flags() == n,
    {
    }

    /// An object-type integer in range with the hold bit set is refused as
    /// unsupported; one with the hold bit clear and none or several kind
    /// bits set is refused as an invalid combination.
    pub proof fn lemma_flags_rejected(n: int)
        requires
            0 <= n <= 255,
        ensures
            bit(n, 128) ==> type_of_flags(n) == Err::<Type, ErrorKind>(
                ErrorKind::UnsupportedObjectKind,
            ),
            !bit(n, 128) && kind_bits(n) != 1 ==> type_of_flags(n) == Err::<Type, ErrorKind>(
                ErrorKind::InvalidFlagCombination,
            ),
    {
    }
}

impl HitSound {
    /// Unpacks a hit-sound integer.
    pub fn from_flags(n: i64) -> (r: Result<HitSound, ErrorKind>)
        ensures
            r == hit_sound_of_flags(n as int),
    {
        if n < 0 || n > 15 {
            return Err(ErrorKind::FlagRangeError);
        }
        let b = n as u8;
        Ok(
            HitSound {
                normal: b % 2 == 1,
                whistle: b / 2 % 2 == 1,
                finish: b / 4 % 2 == 1,
                clap: b / 8 % 2 == 1,
            },
        )
    }

    /// Reads a hit-sound field.
    pub fn decode(s: &[u8]) -> (r: Result<HitSound, DecodeError>)
        ensures
            plain(r) == spec_hit_sound(s@),
    {
        match parse_i64(s) {
            None => Err(DecodeError::new(ErrorKind::NumericFormatError, s)),
            Some(n) => match HitSound::from_flags(n) {
                Ok(t) => Ok(t),
                Err(kind) => Err(DecodeError::new(kind, s)),
            },
        }
    }
}

impl Effects {
    /// Reads an effects field.
    pub fn decode(s: &[u8]) -> (r: Result<Effects, DecodeError>)
        ensures
            plain(r) == spec_effects(s@),
    {
        if s.len() == 1 {
            let b = s[0];
            assert(s@ =~= seq![b]);
            if b == 48 {
                return Ok(Effects { kiai: false, omit_barline: false });
            } else if b == 49 {
                return Ok(Effects { kiai: true, omit_barline: false });
            } else if b == 52 {
                return Ok(Effects { kiai: false, omit_barline: true });
            } else if b == 53 {
                return Ok(Effects { kiai: true, omit_barline: true });
            }
            assert(seq![48u8][0] == 48 && seq![49u8][0] == 49 && seq![52u8][0] == 52 && seq![
                53u8,
            ][0] == 53);
        } else {
            assert(seq![48u8].len() == 1 && seq![49u8].len() == 1 && seq![52u8].len() == 1
                && seq![53u8].len() == 1);
        }
        Err(DecodeError::new(ErrorKind::EnumDecodeError, s))
    }
}

} // verus!
