use beatmap::customization::{
    Background, Break, Color, Countdown, Difficulty, Mode, OverlayPosition,
};
use beatmap::error::ErrorKind;

#[test]
fn closed_sets() {
    assert_eq!(Mode::decode(b"0"), Ok(Mode::Osu));
    assert_eq!(Mode::decode(b"1"), Ok(Mode::Taiko));
    assert_eq!(Mode::decode(b"2"), Ok(Mode::Catch));
    assert_eq!(Mode::decode(b"3"), Ok(Mode::Mania));
    assert_eq!(Mode::decode(b"4").unwrap_err().kind, ErrorKind::EnumDecodeError);
    assert_eq!(Mode::decode(b"").unwrap_err().kind, ErrorKind::EnumDecodeError);
    assert_eq!(Countdown::decode(b"0"), Ok(Countdown::Off));
    assert_eq!(Countdown::decode(b"1"), Ok(Countdown::Normal));
    assert_eq!(Countdown::decode(b"2"), Ok(Countdown::Half));
    assert_eq!(Countdown::decode(b"3"), Ok(Countdown::Double));
    assert_eq!(Countdown::decode(b" 1").unwrap_err().kind, ErrorKind::EnumDecodeError);
    assert_eq!(OverlayPosition::decode(b"NoChange"), Ok(OverlayPosition::NoChange));
    assert_eq!(OverlayPosition::decode(b"Below"), Ok(OverlayPosition::Below));
    assert_eq!(OverlayPosition::decode(b"Above"), Ok(OverlayPosition::Above));
    let e = OverlayPosition::decode(b"above").unwrap_err();
    assert_eq!(e.kind, ErrorKind::EnumDecodeError);
    assert_eq!(e.text, b"above".to_vec());
    assert!(OverlayPosition::decode(b"Above ").is_err());
}

#[test]
fn breaks() {
    assert_eq!(Break::decode(b"2,1000,2500"), Ok(Break { start_time: 1000, end_time: 2500 }));
    assert_eq!(
        Break::decode(b"Break,1000,2500,9"),
        Ok(Break { start_time: 1000, end_time: 2500 })
    );
    let e = Break::decode(b"2,1000").unwrap_err();
    assert_eq!((e.kind, e.count), (ErrorKind::FieldCountError, Some(2)));
    assert_eq!(Break::decode(b"2,a,2500").unwrap_err().kind, ErrorKind::NumericFormatError);
    assert_eq!(Break::decode(b"2,1000, 2500").unwrap_err().text, b" 2500".to_vec());
}

#[test]
fn backgrounds() {
    assert_eq!(
        Background::decode(b"0,0,\"bg.jpg\",10,-20"),
        Ok(Background { filename: b"bg.jpg".to_vec(), xoffset: 10, yoffset: -20 })
    );
    assert_eq!(
        Background::decode(b"0,0,\"bg.jpg\""),
        Ok(Background { filename: b"bg.jpg".to_vec(), xoffset: 0, yoffset: 0 })
    );
    assert_eq!(
        Background::decode(b"0,0,\"bg.jpg\",7"),
        Ok(Background { filename: b"bg.jpg".to_vec(), xoffset: 7, yoffset: 0 })
    );
    assert_eq!(Background::decode(b"0,0,\"\"").unwrap().filename, Vec::<u8>::new());
    assert_eq!(Background::decode(b"0,0,x").unwrap().filename, Vec::<u8>::new());
    assert_eq!(Background::decode(b"0,0,").unwrap().filename, Vec::<u8>::new());
    let e = Background::decode(b"0,0").unwrap_err();
    assert_eq!((e.kind, e.count), (ErrorKind::FieldCountError, Some(2)));
    assert_eq!(
        Background::decode(b"0,0,\"bg.jpg\",x").unwrap_err().kind,
        ErrorKind::NumericFormatError
    );
}

#[test]
fn colours() {
    let c = Color::decode(b"Combo1 : 255,128,0").unwrap();
    assert_eq!(c, Color { red: 255, green: 128, blue: 0 });
    assert_eq!(c.tuple(), (255, 128, 0));
    assert_eq!(Color::decode(b"Combo2 : 1,2,3,4").unwrap().tuple(), (1, 2, 3));
    assert_eq!(Color::decode(b"a : 1,2,3 : 9,9,9").unwrap().tuple(), (1, 2, 3));
    assert_eq!(Color::decode(b" : +1,002,3").unwrap().tuple(), (1, 2, 3));
    let e = Color::decode(b"Combo1: 255,128,0").unwrap_err();
    assert_eq!((e.kind, e.count), (ErrorKind::FieldCountError, Some(1)));
    let e = Color::decode(b"Combo1 : 255,128").unwrap_err();
    assert_eq!((e.kind, e.count), (ErrorKind::FieldCountError, Some(2)));
    assert_eq!(Color::decode(b"c : 256,0,0").unwrap_err().kind, ErrorKind::NumericFormatError);
    assert_eq!(Color::decode(b"c : 0,-0,0").unwrap_err().kind, ErrorKind::NumericFormatError);
    assert_eq!(Color::decode(b"c : 0,-1,0").unwrap_err().text, b"-1".to_vec());
    assert_eq!(Color::decode(b"c : 0,0, 0").unwrap_err().kind, ErrorKind::NumericFormatError);
}

#[test]
fn text_is_parsed_by_its_bytes() {
    assert_eq!("3".parse::<Mode>(), Ok(Mode::Mania));
    assert_eq!("2".parse::<Countdown>(), Ok(Countdown::Half));
    assert_eq!("Below".parse::<OverlayPosition>(), Ok(OverlayPosition::Below));
    assert_eq!("2,5,9".parse::<Break>(), Ok(Break { start_time: 5, end_time: 9 }));
    assert_eq!("x : 9,8,7".parse::<Color>().unwrap().tuple(), (9, 8, 7));
    assert_eq!("0,0,\"é.png\"".parse::<Background>().unwrap().filename, "é.png".as_bytes());
}

#[test]
fn difficulty_settings() {
    let d = Difficulty::new(4, 6, 8, 9);
    assert_eq!(
        d,
        Difficulty { circle_size: 4, hpdrain_rate: 6, overall_difficulty: 8, approach_rate: 9 }
    );
}
