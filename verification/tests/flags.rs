use beatmap::error::ErrorKind;
use beatmap::flags::{Effects, HitSound, ObjectType, Type};

fn bit(n: i64, k: u32) -> bool {
    (n >> k) & 1 == 1
}

#[test]
fn every_object_type_integer_is_decoded_or_refused() {
    for n in 0..=255i64 {
        let kinds = [bit(n, 0), bit(n, 1), bit(n, 3)].iter().filter(|b| **b).count();
        let got = Type::from_flags(n);
        if bit(n, 7) {
            assert_eq!(got, Err(ErrorKind::UnsupportedObjectKind));
        } else if kinds != 1 {
            assert_eq!(got, Err(ErrorKind::InvalidFlagCombination));
        } else {
            let flags = got.unwrap();
            assert_eq!(flags.flags() as i64, n);
            assert_eq!(flags.new_combo, bit(n, 2));
            assert_eq!(flags.color_skip as i64, (n >> 4) & 7);
            let expected = if bit(n, 0) {
                ObjectType::Circle
            } else if bit(n, 1) {
                ObjectType::Slider
            } else {
                ObjectType::Spinner
            };
            assert_eq!(flags.object_type, expected);
        }
    }
}

#[test]
fn object_type_out_of_range() {
    assert_eq!(Type::from_flags(256), Err(ErrorKind::FlagRangeError));
    assert_eq!(Type::from_flags(259), Err(ErrorKind::FlagRangeError));
    assert_eq!(Type::from_flags(-1), Err(ErrorKind::FlagRangeError));
    assert_eq!(Type::from_flags(i64::MAX), Err(ErrorKind::FlagRangeError));
    assert_eq!(Type::from_flags(i64::MIN), Err(ErrorKind::FlagRangeError));
}

#[test]
fn object_type_failures_carry_the_field() {
    let e = Type::decode(b"128").unwrap_err();
    assert_eq!(e.kind, ErrorKind::UnsupportedObjectKind);
    assert_eq!(e.text, b"128".to_vec());
    assert_eq!(e.count, None);
    assert_eq!(e.place, None);
    let e = Type::decode(b"3").unwrap_err();
    assert_eq!(e.kind, ErrorKind::InvalidFlagCombination);
    assert_eq!(e.text, b"3".to_vec());
    let e = Type::decode(b"0").unwrap_err();
    assert_eq!(e.kind, ErrorKind::InvalidFlagCombination);
    let e = Type::decode(b"4").unwrap_err();
    assert_eq!(e.kind, ErrorKind::InvalidFlagCombination);
    let e = Type::decode(b"300").unwrap_err();
    assert_eq!(e.kind, ErrorKind::FlagRangeError);
    let e = Type::decode(b"-1").unwrap_err();
    assert_eq!(e.kind, ErrorKind::FlagRangeError);
    let e = Type::decode(b"x").unwrap_err();
    assert_eq!(e.kind, ErrorKind::NumericFormatError);
    assert_eq!(e.text, b"x".to_vec());
    let e = Type::decode(b"").unwrap_err();
    assert_eq!(e.kind, ErrorKind::NumericFormatError);
}

#[test]
fn colour_skip_weights() {
    assert_eq!(Type::from_flags(1 + 16).unwrap().color_skip, 1);
    assert_eq!(Type::from_flags(1 + 32).unwrap().color_skip, 2);
    assert_eq!(Type::from_flags(1 + 64).unwrap().color_skip, 4);
    assert_eq!(Type::from_flags(1 + 16 + 32).unwrap().color_skip, 3);
    assert_eq!(Type::from_flags(1 + 32 + 64).unwrap().color_skip, 6);
    assert_eq!(Type::from_flags(1 + 16 + 32 + 64).unwrap().color_skip, 7);
    assert_eq!("17".parse::<Type>().unwrap().color_skip, 1);
    let flags = Type { object_type: ObjectType::Spinner, new_combo: true, color_skip: 3 };
    assert_eq!(flags.flags(), 8 + 4 + 16 + 32);
    assert_eq!(Type::from_flags(flags.flags() as i64), Ok(flags));
}

#[test]
fn every_hit_sound_integer() {
    for n in 0..=15i64 {
        assert_eq!(
            HitSound::from_flags(n),
            Ok(HitSound {
                normal: bit(n, 0),
                whistle: bit(n, 1),
                finish: bit(n, 2),
                clap: bit(n, 3)
            })
        );
    }
    assert_eq!(HitSound::from_flags(16), Err(ErrorKind::FlagRangeError));
    assert_eq!(HitSound::from_flags(-1), Err(ErrorKind::FlagRangeError));
    assert_eq!(HitSound::decode(b"16").unwrap_err().kind, ErrorKind::FlagRangeError);
    assert_eq!(HitSound::decode(b"-3").unwrap_err().kind, ErrorKind::FlagRangeError);
    assert_eq!(HitSound::decode(b"1.0").unwrap_err().kind, ErrorKind::NumericFormatError);
    assert_eq!(HitSound::decode(b"+7").unwrap(), HitSound::from_flags(7).unwrap());
}

#[test]
fn effects_are_a_closed_set() {
    assert_eq!("0".parse::<Effects>(), Ok(Effects { kiai: false, omit_barline: false }));
    assert_eq!("1".parse::<Effects>(), Ok(Effects { kiai: true, omit_barline: false }));
    assert_eq!("4".parse::<Effects>(), Ok(Effects { kiai: false, omit_barline: true }));
    assert_eq!("5".parse::<Effects>(), Ok(Effects { kiai: true, omit_barline: true }));
    for text in ["2", "3", "6", "8", "", "01", "1 ", " 1", "+1", "05", "x"] {
        let e = text.parse::<Effects>().unwrap_err();
        assert_eq!(e.kind, ErrorKind::EnumDecodeError);
        assert_eq!(e.text, text.as_bytes().to_vec());
    }
}
