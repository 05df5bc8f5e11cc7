use beatmap::curve::{Curve, CurveType, Point};
use beatmap::flags::{HitSound, ObjectType, Type};
use beatmap::hit_object::{Slider, Spinner};
use beatmap::rational::Rational;
use beatmap::sample::{HalfHitSample, HitSample, SampleSet};

fn sound(normal: bool, whistle: bool, finish: bool, clap: bool) -> HitSound {
    HitSound { normal, whistle, finish, clap }
}

fn silent() -> HitSound {
    sound(false, false, false, false)
}

fn half(normal_set: SampleSet, addition_set: SampleSet) -> HalfHitSample {
    HalfHitSample { normal_set, addition_set }
}

#[test]
fn slider_parse() {
    // Linear slider of format version 14.
    assert_eq!(
        "137,72,2985,6,0,L|253:60,1,105.493329791992,2|0,0:2|0:2,0:0:0:0:"
            .parse::<Slider>()
            .unwrap(),
        Slider {
            x: 137,
            y: 72,
            time: 2985,
            flags: Type { object_type: ObjectType::Slider, new_combo: true, color_skip: 0 },
            hit_sound: silent(),
            curve: Curve { curve_type: CurveType::Linear, points: vec![Point { x: 253, y: 60 }] },
            slides: 1,
            length: Rational::new(105493329791992, 1000000000000),
            edge_sounds: vec![sound(false, true, false, false), silent()],
            edge_sets: vec![
                half(SampleSet::Default, SampleSet::Soft),
                half(SampleSet::Default, SampleSet::Soft),
            ],
            hit_sample: HitSample { ..Default::default() },
        },
    );
    // Perfect slider of format version 14.
    assert_eq!(
        "342,250,2279,2,0,P|282:209|239:210,1,105.493329791992,2|0,0:2|0:2,0:0:0:0:"
            .parse::<Slider>()
            .unwrap(),
        Slider {
            x: 342,
            y: 250,
            time: 2279,
            flags: Type { object_type: ObjectType::Slider, new_combo: false, color_skip: 0 },
            hit_sound: silent(),
            curve: Curve {
                curve_type: CurveType::Perfect,
                points: vec![Point { x: 282, y: 209 }, Point { x: 239, y: 210 }],
            },
            slides: 1,
            length: Rational::new(105493329791992, 1000000000000),
            edge_sounds: vec![sound(false, true, false, false), silent()],
            edge_sets: vec![
                half(SampleSet::Default, SampleSet::Soft),
                half(SampleSet::Default, SampleSet::Soft),
            ],
            hit_sample: HitSample { ..Default::default() },
        },
    );
    // Bezier slider of format version 14.
    assert_eq!(
        "183,255,4985,2,0,B|170:100|234:201|200:26,1,210.986659583985,2|0,0:2|3:2,0:0:0:0:"
            .parse::<Slider>()
            .unwrap(),
        Slider {
            x: 183,
            y: 255,
            time: 4985,
            flags: Type { object_type: ObjectType::Slider, new_combo: false, color_skip: 0 },
            hit_sound: silent(),
            curve: Curve {
                curve_type: CurveType::Bezier,
                points: vec![
                    Point { x: 170, y: 100 },
                    Point { x: 234, y: 201 },
                    Point { x: 200, y: 26 },
                ],
            },
            slides: 1,
            length: Rational::new(210986659583985, 1000000000000),
            edge_sounds: vec![sound(false, true, false, false), silent()],
            edge_sets: vec![
                half(SampleSet::Default, SampleSet::Soft),
                half(SampleSet::Drum, SampleSet::Soft),
            ],
            hit_sample: HitSample { ..Default::default() },
        },
    );
    // Linear slider of format version 3.
    assert_eq!(
        "160,320,79368,2,4,L|160:320|160:240,1,70".parse::<Slider>().unwrap(),
        Slider {
            x: 160,
            y: 320,
            time: 79368,
            flags: Type { object_type: ObjectType::Slider, new_combo: false, color_skip: 0 },
            hit_sound: sound(false, false, true, false),
            curve: Curve {
                curve_type: CurveType::Linear,
                points: vec![Point { x: 160, y: 320 }, Point { x: 160, y: 240 }],
            },
            slides: 1,
            length: Rational::from_integer(70),
            edge_sounds: vec![silent(), sound(false, true, false, false)],
            edge_sets: vec![
                half(SampleSet::Default, SampleSet::Default),
                half(SampleSet::Default, SampleSet::Default),
            ],
            hit_sample: HitSample { ..Default::default() },
        },
    );
    // Bezier slider of format version 3.
    assert_eq!(
        "192,256,64118,2,4,B|192:256|288:256,3,70".parse::<Slider>().unwrap(),
        Slider {
            x: 192,
            y: 256,
            time: 64118,
            flags: Type { object_type: ObjectType::Slider, new_combo: false, color_skip: 0 },
            hit_sound: sound(false, false, true, false),
            curve: Curve {
                curve_type: CurveType::Bezier,
                points: vec![Point { x: 192, y: 256 }, Point { x: 288, y: 256 }],
            },
            slides: 3,
            length: Rational::from_integer(70),
            edge_sounds: vec![silent(), sound(false, true, false, false)],
            edge_sets: vec![
                half(SampleSet::Default, SampleSet::Default),
                half(SampleSet::Default, SampleSet::Default),
            ],
            hit_sample: HitSample { ..Default::default() },
        },
    );
    // Centripetal slider of format version 7.
    assert_eq!(
        "160,64,139347,6,0,C|244:69|352:64,2,160,4|0|0".parse::<Slider>().unwrap(),
        Slider {
            x: 160,
            y: 64,
            time: 139347,
            flags: Type { object_type: ObjectType::Slider, new_combo: true, color_skip: 0 },
            hit_sound: silent(),
            curve: Curve {
                curve_type: CurveType::Centripetal,
                points: vec![Point { x: 244, y: 69 }, Point { x: 352, y: 64 }],
            },
            slides: 2,
            length: Rational::from_integer(160),
            edge_sounds: vec![sound(false, false, true, false), silent(), silent()],
            edge_sets: vec![
                half(SampleSet::Default, SampleSet::Default),
                half(SampleSet::Default, SampleSet::Default),
            ],
            hit_sample: HitSample { ..Default::default() },
        },
    );
    // A circle of format version 14.
    assert!("102,240,161,5,2,0:0:0:0:".parse::<Slider>().is_err());
    // A circle of format version 3.
    assert!("96,64,8118,5,4,".parse::<Slider>().is_err());
    // A spinner of format version 14.
    assert!("256,192,29544,12,0,32632,0:2:0:0:".parse::<Slider>().is_err());
    // A spinner of format version 3.
    assert!("256,192,141619,12,0,143869".parse::<Slider>().is_err());
    // Nothing is trimmed.
    assert!(" 137,72,2985,6,0,L|253:60,1,105.493329791992,2|0,0:2|0:2,0:0:0:0:"
        .parse::<Slider>()
        .is_err());
    // A blank file name is no file name, so a space at the end is accepted.
    assert_eq!(
        "137,72,2985,6,0,L|253:60,1,105.493329791992,2|0,0:2|0:2,0:0:0:0: "
            .parse::<Slider>()
            .unwrap(),
        Slider {
            x: 137,
            y: 72,
            time: 2985,
            flags: Type { object_type: ObjectType::Slider, new_combo: true, color_skip: 0 },
            hit_sound: silent(),
            curve: Curve { curve_type: CurveType::Linear, points: vec![Point { x: 253, y: 60 }] },
            slides: 1,
            length: Rational::new(105493329791992, 1000000000000),
            edge_sounds: vec![sound(false, true, false, false), silent()],
            edge_sets: vec![
                half(SampleSet::Default, SampleSet::Soft),
                half(SampleSet::Default, SampleSet::Soft),
            ],
            hit_sample: HitSample { ..Default::default() },
        },
    );
    // Empty input.
    assert!("".parse::<Slider>().is_err());
}

#[test]
fn spinner_parse() {
    // Spinner of format version 14: its sample descriptor is read.
    assert_eq!(
        "256,192,29544,12,0,32632,0:2:0:0:".parse::<Spinner>().unwrap(),
        Spinner {
            x: 256,
            y: 192,
            time: 29544,
            flags: Type { object_type: ObjectType::Spinner, new_combo: true, color_skip: 0 },
            hit_sound: silent(),
            end_time: 32632,
            hit_sample: HitSample {
                normal_set: SampleSet::Default,
                addition_set: SampleSet::Soft,
                index: 0,
                volume: 0,
                filename: None,
            },
        },
    );
    assert_eq!(
        "256,192,29544,12,0,32632,0:0:0:0:".parse::<Spinner>().unwrap().hit_sample,
        HitSample { ..Default::default() },
    );
    // Spinner of format version 3.
    assert_eq!(
        "256,192,141619,12,0,143869".parse::<Spinner>().unwrap(),
        Spinner {
            x: 256,
            y: 192,
            time: 141619,
            flags: Type { object_type: ObjectType::Spinner, new_combo: true, color_skip: 0 },
            hit_sound: silent(),
            end_time: 143869,
            hit_sample: HitSample { ..Default::default() },
        },
    );
    // A circle of format version 14.
    assert!("102,240,161,5,2,0:0:0:0:".parse::<Spinner>().is_err());
    // A circle of format version 3.
    assert!("96,64,8118,5,4,".parse::<Spinner>().is_err());
    // A slider of format version 14.
    assert!("137,72,2985,6,0,L|253:60,1,105.493329791992,2|0,0:2|0:2,0:0:0:0:"
        .parse::<Spinner>()
        .is_err());
    // A slider of format version 3.
    assert!("336,96,81368,2,4,L|336:96|336:0,1,70".parse::<Spinner>().is_err());
    // Nothing is trimmed.
    assert!(" 256,192,141619,12,0,143869".parse::<Spinner>().is_err());
    assert!("256,192,141619,12,0,143869 ".parse::<Spinner>().is_err());
    // Empty input.
    assert!("".parse::<Spinner>().is_err());
}

#[test]
fn type_parse() {
    let correct = [
        ("1", Type { object_type: ObjectType::Circle, new_combo: false, color_skip: 0 }),
        ("2", Type { object_type: ObjectType::Slider, new_combo: false, color_skip: 0 }),
        ("5", Type { object_type: ObjectType::Circle, new_combo: true, color_skip: 0 }),
        ("6", Type { object_type: ObjectType::Slider, new_combo: true, color_skip: 0 }),
        ("8", Type { object_type: ObjectType::Spinner, new_combo: false, color_skip: 0 }),
        ("12", Type { object_type: ObjectType::Spinner, new_combo: true, color_skip: 0 }),
        ("66", Type { object_type: ObjectType::Slider, new_combo: false, color_skip: 4 }),
        ("33", Type { object_type: ObjectType::Circle, new_combo: false, color_skip: 2 }),
        ("104", Type { object_type: ObjectType::Spinner, new_combo: false, color_skip: 6 }),
        ("17", Type { object_type: ObjectType::Circle, new_combo: false, color_skip: 1 }),
        ("86", Type { object_type: ObjectType::Slider, new_combo: true, color_skip: 5 }),
        ("53", Type { object_type: ObjectType::Circle, new_combo: true, color_skip: 3 }),
        ("124", Type { object_type: ObjectType::Spinner, new_combo: true, color_skip: 7 }),
    ];
    for pair in correct {
        assert_eq!(pair.0.parse::<Type>().unwrap(), pair.1);
    }
    // Nothing is trimmed.
    assert!(" 1".parse::<Type>().is_err());
    assert!("1 ".parse::<Type>().is_err());
    // Empty input.
    assert!("".parse::<Type>().is_err());
}

#[test]
fn hit_sound_parse() {
    let correct = [
        ("0", sound(false, false, false, false)),
        ("1", sound(true, false, false, false)),
        ("2", sound(false, true, false, false)),
        ("3", sound(true, true, false, false)),
        ("4", sound(false, false, true, false)),
        ("5", sound(true, false, true, false)),
        ("6", sound(false, true, true, false)),
        ("7", sound(true, true, true, false)),
        ("8", sound(false, false, false, true)),
        ("9", sound(true, false, false, true)),
        ("10", sound(false, true, false, true)),
        ("11", sound(true, true, false, true)),
        ("12", sound(false, false, true, true)),
        ("13", sound(true, false, true, true)),
        ("14", sound(false, true, true, true)),
        ("15", sound(true, true, true, true)),
    ];
    for pair in correct {
        assert_eq!(pair.0.parse::<HitSound>().unwrap(), pair.1);
    }
    // Nothing is trimmed.
    let no_trim = [
        " 0", " 1", " 2", " 3", " 4", " 5", " 6", " 7", " 8", " 9", " 10", " 11", " 12", " 13",
        " 14", " 15", "0 ", "1 ", "2 ", "3 ", "4 ", "5 ", "6 ", "7 ", "8 ", "9 ", "10 ", "11 ",
        "12 ", "13 ", "14 ", "15 ",
    ];
    for line in no_trim {
        assert!(line.parse::<HitSound>().is_err());
    }
    // Empty input.
    assert!("".parse::<HitSound>().is_err());
}

#[test]
fn half_hit_sample_parse() {
    assert_eq!("0:0".parse::<HalfHitSample>().unwrap(), HalfHitSample { ..Default::default() });
    assert_eq!(
        "0:1".parse::<HalfHitSample>().unwrap(),
        HalfHitSample { normal_set: SampleSet::Default, addition_set: SampleSet::Normal }
    );
    assert_eq!(
        "2:3".parse::<HalfHitSample>().unwrap(),
        HalfHitSample { normal_set: SampleSet::Soft, addition_set: SampleSet::Drum }
    );
    // Nothing is trimmed.
    assert!(" 0:0".parse::<HalfHitSample>().is_err());
    assert!("0:0 ".parse::<HalfHitSample>().is_err());
    // Empty input.
    assert!("".parse::<HalfHitSample>().is_err());
}

#[test]
fn hit_sample_parse() {
    // The default is what 0:0:0:0: writes.
    assert_eq!("0:0:0:0:".parse::<HitSample>().unwrap(), HitSample { ..Default::default() });
    // Without a file name.
    assert_eq!(
        "1:2:3:100:".parse::<HitSample>().unwrap(),
        HitSample {
            normal_set: "1".parse::<SampleSet>().unwrap(),
            addition_set: "2".parse::<SampleSet>().unwrap(),
            index: 3,
            volume: 100,
            ..Default::default()
        },
    );
    // With a file name.
    assert_eq!(
        "0:3:2:100:file".parse::<HitSample>().unwrap(),
        HitSample {
            normal_set: "0".parse::<SampleSet>().unwrap(),
            addition_set: "3".parse::<SampleSet>().unwrap(),
            index: 2,
            volume: 100,
            filename: Some("file".into()),
        },
    );
    // With a file name that holds three spaces.
    assert_eq!(
        "0:3:2:100: a file ".parse::<HitSample>().unwrap(),
        HitSample {
            normal_set: "0".parse::<SampleSet>().unwrap(),
            addition_set: "3".parse::<SampleSet>().unwrap(),
            index: 2,
            volume: 100,
            filename: Some(" a file ".into()),
        },
    );
    // Nothing is trimmed from the whole text.
    assert!(" 0:0:0:0:".parse::<SampleSet>().is_err());
    // Empty input.
    assert!("".parse::<SampleSet>().is_err());
}

#[test]
fn sample_set_parse() {
    let correct = [
        ("0", SampleSet::Default),
        ("1", SampleSet::Normal),
        ("2", SampleSet::Soft),
        ("3", SampleSet::Drum),
    ];
    for pair in correct {
        assert_eq!(pair.0.parse::<SampleSet>().unwrap(), pair.1);
    }
    // Nothing is trimmed.
    let no_trim = [" 0", " 1", " 2", " 3", "0 ", "1 ", "2 ", "3 "];
    for line in no_trim {
        assert!(line.parse::<SampleSet>().is_err());
    }
    // Empty input.
    assert!("".parse::<SampleSet>().is_err());
}

#[test]
fn curve_parse() {
    // Bezier curve.
    assert_eq!(
        "B|170:100|234:201|200:26".parse::<Curve>().unwrap(),
        Curve {
            curve_type: CurveType::Bezier,
            points: vec![
                Point { x: 170, y: 100 },
                Point { x: 234, y: 201 },
                Point { x: 200, y: 26 },
            ]
        },
    );
    // Linear curve, with a made-up control point.
    assert_eq!(
        "L|0:0".parse::<Curve>().unwrap(),
        Curve { curve_type: CurveType::Linear, points: vec![Point { x: 0, y: 0 },] },
    );
    // Centripetal curve.
    assert_eq!(
        "C|240:288|352:240|464:224".parse::<Curve>().unwrap(),
        Curve {
            curve_type: CurveType::Centripetal,
            points: vec![
                Point { x: 240, y: 288 },
                Point { x: 352, y: 240 },
                Point { x: 464, y: 224 },
            ]
        },
    );
    // Perfect curve.
    assert_eq!(
        "P|282:209|239:210".parse::<Curve>().unwrap(),
        Curve {
            curve_type: CurveType::Perfect,
            points: vec![Point { x: 282, y: 209 }, Point { x: 239, y: 210 },]
        },
    );
    // Nothing is trimmed.
    assert!(" L|0:0".parse::<Curve>().is_err());
    assert!("L|0:0 ".parse::<Curve>().is_err());
    // Empty input.
    assert!("".parse::<Curve>().is_err());
}

#[test]
fn curve_type_parse() {
    let correct = [
        ("B", CurveType::Bezier),
        ("C", CurveType::Centripetal),
        ("L", CurveType::Linear),
        ("P", CurveType::Perfect),
    ];
    for pair in correct {
        assert_eq!(pair.0.parse::<CurveType>().unwrap(), pair.1);
    }
    // Nothing is trimmed.
    let no_trim = [" B", " C", " L", " P", "B ", "C ", "L ", "P "];
    for line in no_trim {
        if let Ok(_) = line.parse::<CurveType>() {
            panic!("curve_type_parse did not return error on bad input: {}", line)
        }
    }
    // Empty input.
    assert!("".parse::<CurveType>().is_err());
}
