use beatmap::curve::{Curve, CurveType, Point};
use beatmap::decimal::decode_signed_decimal;
use beatmap::error::{DecodeError, ErrorKind};
use beatmap::flags::{Effects, HitSound, ObjectType, Type};
use beatmap::hit_object::{Circle, HitObject, Slider, Spinner, Time};
use beatmap::rational::Rational;
use beatmap::sample::{HalfHitSample, HitSample, SampleSet};
use beatmap::timing_point::TimingPoint;

fn silent() -> HitSound {
    HitSound { normal: false, whistle: false, finish: false, clap: false }
}

fn whistle() -> HitSound {
    HitSound { normal: false, whistle: true, finish: false, clap: false }
}

fn count_failure(r: Result<Slider, DecodeError>) -> Option<usize> {
    let e = r.unwrap_err();
    assert_eq!(e.kind, ErrorKind::FieldCountError);
    e.count
}

#[test]
fn slider_shape_follows_the_field_count() {
    let three = "1,2,3,2,0,L|4:5,1,10.5".parse::<Slider>().unwrap();
    assert_eq!(three.edge_sounds, vec![silent(), whistle()]);
    assert_eq!(three.edge_sets, vec![HalfHitSample::default(), HalfHitSample::default()]);
    assert_eq!(three.hit_sample, HitSample::default());
    assert_eq!(three.slides, 1);
    assert_eq!(three.length, Rational::new(21, 2));
    assert_eq!(three.curve.points, vec![Point { x: 4, y: 5 }]);

    let four = "1,2,3,2,0,L|4:5,1,10.5,8|1|0".parse::<Slider>().unwrap();
    assert_eq!(
        four.edge_sounds,
        vec![
            HitSound { normal: false, whistle: false, finish: false, clap: true },
            HitSound { normal: true, whistle: false, finish: false, clap: false },
            silent(),
        ]
    );
    assert_eq!(four.edge_sets, vec![HalfHitSample::default(), HalfHitSample::default()]);
    assert_eq!(four.hit_sample, HitSample::default());

    let six = "1,2,3,2,0,L|4:5,1,10.5,8|1,1:2|3:0|0:0,2:1:7:50:hit.wav"
        .parse::<Slider>()
        .unwrap();
    assert_eq!(six.edge_sounds.len(), 2);
    assert_eq!(
        six.edge_sets,
        vec![
            HalfHitSample { normal_set: SampleSet::Normal, addition_set: SampleSet::Soft },
            HalfHitSample { normal_set: SampleSet::Drum, addition_set: SampleSet::Default },
            HalfHitSample::default(),
        ]
    );
    assert_eq!(
        six.hit_sample,
        HitSample {
            normal_set: SampleSet::Soft,
            addition_set: SampleSet::Normal,
            index: 7,
            volume: 50,
            filename: Some(b"hit.wav".to_vec()),
        }
    );

    assert_eq!(count_failure("1,2,3,2,0".parse::<Slider>()), Some(0));
    assert_eq!(count_failure("1,2,3,2,0,L|4:5".parse::<Slider>()), Some(1));
    assert_eq!(count_failure("1,2,3,2,0,L|4:5,1".parse::<Slider>()), Some(2));
    assert_eq!(count_failure("1,2,3,2,0,L|4:5,1,10,0|0,0:0|0:0".parse::<Slider>()), Some(5));
    assert_eq!(
        count_failure("1,2,3,2,0,L|4:5,1,10,0|0,0:0|0:0,0:0:0:0:,".parse::<Slider>()),
        Some(7)
    );
    let line = "1,2,3,2,0,L|4:5,1";
    assert_eq!(line.parse::<Slider>().unwrap_err().text, line.as_bytes().to_vec());
    assert_eq!(count_failure("1,2,3,2".parse::<Slider>()), Some(4));
}

#[test]
fn slider_failures_come_in_field_order() {
    let kind = |s: &str| s.parse::<Slider>().unwrap_err().kind;
    assert_eq!(kind("x,2,3,2,0,L|4:5,1,10"), ErrorKind::NumericFormatError);
    assert_eq!(kind("1,2,3,200,0,L|4:5,1,10"), ErrorKind::UnsupportedObjectKind);
    assert_eq!(kind("1,2,3,2,99,L|4:5,1,10"), ErrorKind::FlagRangeError);
    assert_eq!(kind("1,2,3,2,0,Q|4:5,1,10"), ErrorKind::EnumDecodeError);
    assert_eq!(kind("1,2,3,2,0,P|4:5|6:7|8:9,1,10"), ErrorKind::CurveShapeError);
    assert_eq!(kind("1,2,3,2,0,L|4:5,one,10"), ErrorKind::NumericFormatError);
    assert_eq!(kind("1,2,3,2,0,L|4:5,1,1e1"), ErrorKind::NumericFormatError);
    assert_eq!(kind("1,2,3,2,0,L|4:5,1,10,16"), ErrorKind::FlagRangeError);
    assert_eq!(kind("1,2,3,2,0,L|4:5,1,10,0|0,0:9|0:0,0:0:0:0:"), ErrorKind::EnumDecodeError);
    assert_eq!(kind("1,2,3,2,0,L|4:5,1,10,0|0,0|0:0,0:0:0:0:"), ErrorKind::FieldCountError);
    assert_eq!(kind("1,2,3,2,0,L|4:5,1,10,0|0,0:0|0:0,0:0"), ErrorKind::FieldCountError);
    let e = "1,2,3,2,0,L|4:5,one,10".parse::<Slider>().unwrap_err();
    assert_eq!(e.text, b"one".to_vec());
}

#[test]
fn end_to_end_slider() {
    let object = "137,72,2985,6,0,L|253:60,1,105.49,2|0,0:2|0:2,0:0:0:0:"
        .parse::<HitObject>()
        .unwrap();
    let slider = match object {
        HitObject::Slider(s) => s,
        _ => panic!("not a slider"),
    };
    assert_eq!((slider.x, slider.y, slider.time), (137, 72, 2985));
    assert!(slider.flags.new_combo);
    assert_eq!(slider.flags.object_type, ObjectType::Slider);
    assert_eq!(
        slider.curve,
        Curve { curve_type: CurveType::Linear, points: vec![Point { x: 253, y: 60 }] }
    );
    assert_eq!(slider.slides, 1);
    assert_eq!(slider.length, Rational::new(10549, 100));
    assert_eq!(slider.edge_sounds, vec![whistle(), silent()]);
    assert_eq!(
        slider.edge_sets,
        vec![
            HalfHitSample { normal_set: SampleSet::Default, addition_set: SampleSet::Soft },
            HalfHitSample { normal_set: SampleSet::Default, addition_set: SampleSet::Soft },
        ]
    );
    assert_eq!(slider.hit_sample, HitSample::default());
    assert_eq!(slider.time(), 2985);
}

#[test]
fn white_space_around_a_record_is_refused() {
    assert!(" 1,2,3,5,0".parse::<HitObject>().is_err());
    assert!("1,2,3,5,0 ".parse::<HitObject>().is_err());
    assert!("1,2,3,5,0".parse::<HitObject>().is_ok());
    assert!(" 1,2,3,5,0".parse::<Circle>().is_err());
    assert!("1, 2,3,5,0".parse::<Circle>().is_err());
    assert!("\t1,2,3,5,0".parse::<Circle>().is_err());
    assert!("1,2,3,5,0\r".parse::<Circle>().is_err());
    let sample = "0:3:2:100: a file ".parse::<HitSample>().unwrap();
    assert_eq!(sample.filename, Some(b" a file ".to_vec()));
    let circle = "1,2,3,5,0,0:3:2:100: a file ".parse::<Circle>().unwrap();
    assert_eq!(circle.hit_sample.filename, Some(b" a file ".to_vec()));
}

#[test]
fn circle_records() {
    let plain = "102,240,161,5,2".parse::<Circle>().unwrap();
    assert_eq!(
        plain,
        Circle {
            x: 102,
            y: 240,
            time: 161,
            flags: Type { object_type: ObjectType::Circle, new_combo: true, color_skip: 0 },
            hit_sound: whistle(),
            hit_sample: HitSample::default(),
        }
    );
    assert_eq!(plain.time(), 161);
    assert_eq!("102,240,161,5,2,".parse::<Circle>().unwrap(), plain);
    assert_eq!("102,240,161,5,2,0:0:0:0:".parse::<Circle>().unwrap(), plain);
    let sampled = "102,240,161,5,2,1:2:3:40:clap.wav".parse::<Circle>().unwrap();
    assert_eq!(
        sampled.hit_sample,
        HitSample {
            normal_set: SampleSet::Normal,
            addition_set: SampleSet::Soft,
            index: 3,
            volume: 40,
            filename: Some(b"clap.wav".to_vec()),
        }
    );
    assert_eq!("-5,+7,-161,1,0".parse::<Circle>().unwrap().x, -5);
    let e = "102,240,161,5,2,0:0:0:0:,9".parse::<Circle>().unwrap_err();
    assert_eq!((e.kind, e.count), (ErrorKind::FieldCountError, Some(7)));
    let e = "102,240,161,5".parse::<Circle>().unwrap_err();
    assert_eq!((e.kind, e.count), (ErrorKind::FieldCountError, Some(4)));
    let e = "".parse::<Circle>().unwrap_err();
    assert_eq!((e.kind, e.count), (ErrorKind::FieldCountError, Some(1)));
    let e = "102,240,161,5,2,0:0".parse::<Circle>().unwrap_err();
    assert_eq!((e.kind, e.count), (ErrorKind::FieldCountError, Some(2)));
    assert_eq!(e.text, b"0:0".to_vec());
}

#[test]
fn spinner_records() {
    let e = "256,192,29544,12,0".parse::<Spinner>().unwrap_err();
    assert_eq!((e.kind, e.count), (ErrorKind::FieldCountError, Some(5)));
    let e = "256,192,29544,12,0,1,0:0:0:0:,7".parse::<Spinner>().unwrap_err();
    assert_eq!((e.kind, e.count), (ErrorKind::FieldCountError, Some(8)));
    let s = "256,192,29544,12,0,32632,".parse::<Spinner>().unwrap();
    assert_eq!(s.end_time, 32632);
    assert_eq!(s.hit_sample, HitSample::default());
    assert_eq!(s.time(), 29544);
}

#[test]
fn hit_objects_are_read_as_their_kind() {
    assert!(matches!("1,2,3,1,0".parse::<HitObject>().unwrap(), HitObject::Circle(_)));
    assert!(matches!("1,2,3,2,0,L|4:5,1,10".parse::<HitObject>().unwrap(), HitObject::Slider(_)));
    assert!(matches!("1,2,3,8,0,9".parse::<HitObject>().unwrap(), HitObject::Spinner(_)));
    assert!(matches!("1,2,3,12,0,9".parse::<HitObject>().unwrap(), HitObject::Spinner(_)));
    assert_eq!("1,2,3,8,0,9".parse::<HitObject>().unwrap().time(), 3);
    // A slider's tail on a circle is one field too many.
    let e = "1,2,3,1,0,L|4:5,1,10".parse::<HitObject>().unwrap_err();
    assert_eq!((e.kind, e.count), (ErrorKind::FieldCountError, Some(8)));
    // The hold note is refused.
    let e = "1,2,3,128,0,9:0:0:0:0:".parse::<HitObject>().unwrap_err();
    assert_eq!(e.kind, ErrorKind::UnsupportedObjectKind);
    let e = "1,2,3,3,0".parse::<HitObject>().unwrap_err();
    assert_eq!(e.kind, ErrorKind::InvalidFlagCombination);
    assert_eq!(e.text, b"3".to_vec());
}

#[test]
fn the_sign_of_a_length_is_for_the_whole_of_it() {
    let point = "0,-1.5".parse::<TimingPoint>().unwrap();
    assert_eq!(point.beat_length, Rational::new(-3, 2));
    let point = "0,-66.67,4,2,1,60,0,0".parse::<TimingPoint>().unwrap();
    assert_eq!(point.beat_length, Rational::new(-6667, 100));
    let point = "0,-0.25".parse::<TimingPoint>().unwrap();
    assert_eq!(point.beat_length, Rational::new(-1, 4));
    let point = "0,-0.0".parse::<TimingPoint>().unwrap();
    assert_eq!(point.beat_length, Rational::from_integer(0));
    let point = "0,-100".parse::<TimingPoint>().unwrap();
    assert_eq!(point.beat_length, Rational::from_integer(-100));
    let point = "0,333.33".parse::<TimingPoint>().unwrap();
    assert_eq!(point.beat_length, Rational::new(33333, 100));
    let slider = "1,2,3,2,0,L|4:5,1,-10.5".parse::<Slider>().unwrap();
    assert_eq!(slider.length, Rational::new(-21, 2));
    assert_eq!(decode_signed_decimal(b"-1.5"), Ok(Rational::new(-3, 2)));
    assert_eq!(decode_signed_decimal(b"1.5"), Ok(Rational::new(3, 2)));
    assert_eq!(decode_signed_decimal(b"-9223372036854775808"), Ok(Rational::from_integer(i64::MIN)));
    assert_eq!(
        decode_signed_decimal(b"-922337203685477580.8"),
        Ok(Rational::new(i64::MIN, 10))
    );
    assert!(decode_signed_decimal(b"-922337203685477580.9").is_err());
    assert!(decode_signed_decimal(b"922337203685477580.8").is_err());
    assert_eq!(
        decode_signed_decimal(b"922337203685477580.7"),
        Ok(Rational::new(i64::MAX, 10))
    );
    for bad in ["", "-", "1.", ".5", "+1.5", "1e3", " 1", "1 ", "--1", "1.5\u{a0}"] {
        let e = decode_signed_decimal(bad.as_bytes()).unwrap_err();
        assert_eq!(e.kind, ErrorKind::NumericFormatError);
        assert_eq!(e.text, bad.as_bytes().to_vec());
    }
}

#[test]
fn end_to_end_timing_point() {
    assert_eq!(
        "10000,500,4,2,1,60,1,1".parse::<TimingPoint>().unwrap(),
        TimingPoint {
            time: 10000,
            beat_length: Rational::from_integer(500),
            meter: 4,
            sample_set: SampleSet::Soft,
            sample_index: 1,
            volume: 60,
            uninherited: true,
            effects: Effects { kiai: true, omit_barline: false },
        }
    );
}

#[test]
fn timing_point_shape_follows_the_field_count() {
    let two = "1500,333.33".parse::<TimingPoint>().unwrap();
    assert_eq!(
        two,
        TimingPoint {
            time: 1500,
            beat_length: Rational::new(33333, 100),
            meter: 4,
            sample_set: SampleSet::Default,
            sample_index: 0,
            volume: 100,
            uninherited: true,
            effects: Effects { kiai: false, omit_barline: false },
        }
    );
    assert_eq!(
        TimingPoint { time: 1500, beat_length: Rational::new(33333, 100), ..Default::default() },
        two
    );
    let six = "1500,-100,3,1,2,80".parse::<TimingPoint>().unwrap();
    assert_eq!(
        six,
        TimingPoint {
            time: 1500,
            beat_length: Rational::from_integer(-100),
            meter: 3,
            sample_set: SampleSet::Normal,
            sample_index: 2,
            volume: 80,
            uninherited: true,
            effects: Effects { kiai: false, omit_barline: false },
        }
    );
    let seven = "1500,-100,3,1,2,80,0".parse::<TimingPoint>().unwrap();
    assert_eq!(seven, TimingPoint { uninherited: false, ..six });
    let other = "1500,-100,3,1,2,80,2".parse::<TimingPoint>().unwrap();
    assert!(!other.uninherited);
    let eight = "1500,-100,3,1,2,80,0,5".parse::<TimingPoint>().unwrap();
    assert_eq!(
        eight,
        TimingPoint { effects: Effects { kiai: true, omit_barline: true }, ..seven }
    );
    for (line, count) in [
        ("", 1),
        ("1500", 1),
        ("1500,-100,3", 3),
        ("1500,-100,3,1", 4),
        ("1500,-100,3,1,2", 5),
        ("1500,-100,3,1,2,80,0,5,", 9),
    ] {
        let e = line.parse::<TimingPoint>().unwrap_err();
        assert_eq!(e.kind, ErrorKind::FieldCountError);
        assert_eq!(e.count, Some(count));
        assert_eq!(e.text, line.as_bytes().to_vec());
    }
    let kind = |s: &str| s.parse::<TimingPoint>().unwrap_err().kind;
    assert_eq!(kind("a,1"), ErrorKind::NumericFormatError);
    assert_eq!(kind("1,b"), ErrorKind::NumericFormatError);
    assert_eq!(kind(" 1,1"), ErrorKind::NumericFormatError);
    assert_eq!(kind("1,1 "), ErrorKind::NumericFormatError);
    assert_eq!(kind("1,1,4,7,1,60"), ErrorKind::EnumDecodeError);
    assert_eq!(kind("1,1,4,1,1,60,1,2"), ErrorKind::EnumDecodeError);
    assert_eq!(kind("1,1,4,1,1,60,x,1"), ErrorKind::NumericFormatError);
    assert_eq!(TimingPoint::default().beat_length, Rational::from_integer(0));
}

#[test]
fn curve_shape() {
    let e = "P|0:0|1:1|2:2".parse::<Curve>().unwrap_err();
    assert_eq!(e.kind, ErrorKind::CurveShapeError);
    assert_eq!(e.text, b"P|0:0|1:1|2:2".to_vec());
    let two = "P|0:0|1:1".parse::<Curve>().unwrap();
    assert_eq!(two.points, vec![Point { x: 0, y: 0 }, Point { x: 1, y: 1 }]);
    assert_eq!("P|0:0".parse::<Curve>().unwrap().points.len(), 1);
    assert_eq!("P".parse::<Curve>().unwrap().points.len(), 0);
    assert_eq!("B|0:0|1:1|2:2|-3:+3".parse::<Curve>().unwrap().points.len(), 4);
    // A bad point before the third is reported first.
    assert_eq!("P|0:0|x:1|2:2".parse::<Curve>().unwrap_err().kind, ErrorKind::NumericFormatError);
    let e = "L|5".parse::<Curve>().unwrap_err();
    assert_eq!((e.kind, e.count), (ErrorKind::FieldCountError, Some(1)));
    assert_eq!("L|1:2:3".parse::<Curve>().unwrap_err().kind, ErrorKind::NumericFormatError);
    assert_eq!("L|".parse::<Curve>().unwrap_err().kind, ErrorKind::FieldCountError);
    assert_eq!("X|1:2".parse::<Curve>().unwrap_err().kind, ErrorKind::EnumDecodeError);
}

#[test]
fn sample_descriptors() {
    let e = "0:0".parse::<HitSample>().unwrap_err();
    assert_eq!((e.kind, e.count), (ErrorKind::FieldCountError, Some(2)));
    let e = "0".parse::<HitSample>().unwrap_err();
    assert_eq!((e.kind, e.count), (ErrorKind::FieldCountError, Some(1)));
    let e = "0:0:0".parse::<HitSample>().unwrap_err();
    assert_eq!((e.kind, e.count), (ErrorKind::FieldCountError, Some(3)));
    // With three colons the volume and the file name keep their defaults.
    let short = "1:2:3:".parse::<HitSample>().unwrap();
    assert_eq!((short.index, short.volume, short.filename.clone()), (3, 0, None));
    let ignored = "1:2:3:77".parse::<HitSample>().unwrap();
    assert_eq!((ignored.index, ignored.volume, ignored.filename.clone()), (3, 0, None));
    // The file name keeps every byte after the fourth colon.
    let colons = "0:0:0:0:a:b: c".parse::<HitSample>().unwrap();
    assert_eq!(colons.filename, Some(b"a:b: c".to_vec()));
    let blank = "0:0:0:0: \t ".parse::<HitSample>().unwrap();
    assert_eq!(blank.filename, None);
    for space in ["\u{a0}", "\u{85}", "\u{1680}", "\u{2000}", "\u{200a}", "\u{2028}", "\u{2029}", "\u{202f}", "\u{205f}", "\u{3000}", "\u{a0} \u{3000}\t"] {
        let text = format!("0:0:0:0:{}", space);
        assert_eq!(text.parse::<HitSample>().unwrap(), HitSample::default());
        let text = format!("0:0:0:0:{}a{}", space, space);
        assert_eq!(
            text.parse::<HitSample>().unwrap().filename,
            Some(format!("{}a{}", space, space).into_bytes())
        );
    }
    let kept = "0:0:0:0:\u{200b}".parse::<HitSample>().unwrap();
    assert_eq!(kept.filename, Some("\u{200b}".as_bytes().to_vec()));
    assert_eq!("4:0:0:0:".parse::<HitSample>().unwrap_err().kind, ErrorKind::EnumDecodeError);
    assert_eq!("0:x:0:0:".parse::<HitSample>().unwrap_err().kind, ErrorKind::EnumDecodeError);
    assert_eq!("0:0:x:0:".parse::<HitSample>().unwrap_err().kind, ErrorKind::NumericFormatError);
    assert_eq!("0:0:0:x:".parse::<HitSample>().unwrap_err().kind, ErrorKind::NumericFormatError);
    let e = "0".parse::<HalfHitSample>().unwrap_err();
    assert_eq!((e.kind, e.count), (ErrorKind::FieldCountError, Some(1)));
    let e = "0:0:0".parse::<HalfHitSample>().unwrap_err();
    assert_eq!((e.kind, e.count), (ErrorKind::FieldCountError, Some(3)));
    assert_eq!("0:5".parse::<HalfHitSample>().unwrap_err().kind, ErrorKind::EnumDecodeError);
    assert_eq!("Normal".parse::<SampleSet>().unwrap_err().kind, ErrorKind::EnumDecodeError);
}
