use zinnia::error::{Error, Kind};
use zinnia::music::{Note, Octave};
use zinnia::Result;

#[test]
fn it_works() {
    assert_eq!(2 + 2, 4);
}

#[test]
fn c_0_fail() -> Result<()> {
    match Note::C(Octave::Zero).key_number() {
        Err(_) => Ok(()),
        _ => Err(Error::new("Expected an error", Kind::Zinnia)),
    }
}

#[test]
fn gsharp_0_fail() -> Result<()> {
    match Note::GSharp(Octave::Zero).key_number() {
        Err(_) => Ok(()),
        _ => Err(Error::new("Expected an error", Kind::Zinnia)),
    }
}

#[test]
fn a_0_ok() {
    assert_eq!(Note::A(Octave::Zero).key_number().unwrap(), 1);
}

#[test]
fn b_0_ok() {
    assert_eq!(Note::B(Octave::Zero).key_number().unwrap(), 3);
}

#[test]
fn c_1_ok() {
    assert_eq!(Note::C(Octave::One).key_number().unwrap(), 4);
}

#[test]
fn middle_c_ok() {
    assert_eq!(Note::C(Octave::Four).key_number().unwrap(), 40);
}

#[test]
fn a_440_ok() {
    assert_eq!(Note::A(Octave::Four).key_number().unwrap(), 49);
}

#[test]
fn c_8_ok() {
    assert_eq!(Note::C(Octave::Eight).key_number().unwrap(), 88);
}

#[test]
fn csharp_8_fail() -> Result<()> {
    match Note::CSharp(Octave::Eight).key_number() {
        Err(_) => Ok(()),
        _ => Err(Error::new("Expected an error", Kind::Zinnia)),
    }
}

#[test]
fn parse_accepts_note_token() {
    assert!(matches!(Note::parse("4a"), Ok(Note::A(Octave::Four))));
    assert!(matches!(Note::parse("  3C  "), Ok(Note::C(Octave::Three))));
    assert!(matches!(Note::parse("0g"), Ok(Note::G(Octave::Zero))));
    assert!(matches!(Note::parse("8B"), Ok(Note::B(Octave::Eight))));
}

#[test]
fn parse_rejects_bad_octave() {
    let err = Note::parse("9a").unwrap_err();
    assert_eq!(err.kind(), Kind::Zinnia);
    assert_eq!(err.func(), "Invalid Octave");
}

#[test]
fn parse_rejects_bad_letter_and_short_input() {
    let err = Note::parse("4x").unwrap_err();
    assert_eq!(err.kind(), Kind::Zinnia);
    assert_eq!(err.func(), "Failed to parse note");
    assert!(Note::parse("").is_err());
    assert!(Note::parse("   ").is_err());
    assert!(Note::parse("4").is_err());
}

#[test]
fn octave_numbers_follow_order() {
    assert_eq!(Octave::Zero.number(), 0);
    assert_eq!(Octave::Four.number(), 4);
    assert_eq!(Octave::Eight.number(), 8);
    assert!(matches!(Octave::from_digit(b'5'), Ok(Octave::Five)));
    assert!(Octave::from_digit(b'9').is_err());
}

#[test]
fn error_carries_function_and_kind() {
    let e = Error::new("negotiate", Kind::Alsa);
    assert_eq!(e.kind(), Kind::Alsa);
    assert_eq!(e.func(), "negotiate");
    assert_eq!(Error::new("send", Kind::Channel).kind(), Kind::Channel);
    assert_eq!(Error::new("poll", Kind::Poll).kind(), Kind::Poll);
    assert_eq!(Error::new("parse", Kind::Zinnia).kind(), Kind::Zinnia);
}
