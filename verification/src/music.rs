//! Musical note names: parsing a textual note/octave token and mapping a
//! note to its piano key number.
//!
//! A token is an octave digit followed by a note letter, as in `4a`;
//! surrounding ASCII whitespace is ignored and the letter may be upper
//! case. This utility sits outside the real-time path and only feeds
//! voice construction.

use vstd::prelude::*;
use vstd::string::StringSliceAdditionalSpecFns;

use crate::Result;
use crate::error::{Error, Kind};

verus! {

/// The number of piano keys in one octave.
pub const KEYS_PER_OCTAVE: u32 = 12;

/// Key 1 of the keyboard is the A of octave zero, eight keys above C0.
pub const START_KEY_OFFSET: u32 = 8;

/// An octave of the eighty-eight key keyboard.
#[derive(Clone, Copy, Debug, PartialEq, Eq, Structural)]
pub enum Octave {
    Zero,
    One,
    Two,
    Three,
    Four,
    Five,
    Six,
    Seven,
    Eight,
}

/// The ordinal of an octave, starting from zero.
pub open spec fn octave_number(o: Octave) -> int {
    match o {
        Octave::Zero => 0,
        Octave::One => 1,
        Octave::Two => 2,
        Octave::Three => 3,
        Octave::Four => 4,
        Octave::Five => 5,
        Octave::Six => 6,
        Octave::Seven => 7,
        Octave::Eight => 8,
    }
}

/// The octave named by an ASCII digit, if any.
pub open spec fn octave_of_byte(b: u8) -> Option<Octave> {
    if b == 48 {
        Some(Octave::Zero)
    } else if b == 49 {
        Some(Octave::One)
    } else if b == 50 {
        Some(Octave::Two)
    } else if b == 51 {
        Some(Octave::Three)
    } else if b == 52 {
        Some(Octave::Four)
    } else if b == 53 {
        Some(Octave::Five)
    } else if b == 54 {
        Some(Octave::Six)
    } else if b == 55 {
        Some(Octave::Seven)
    } else if b == 56 {
        Some(Octave::Eight)
    } else {
        None
    }
}

impl Octave {
    /// The ordinal of the octave, starting from zero.
    pub fn number(&self) -> (n: u32)
        ensures
            n == octave_number(*self),
    {
        match self {
            Octave::Zero => 0,
            Octave::One => 1,
            Octave::Two => 2,
            Octave::Three => 3,
            Octave::Four => 4,
            Octave::Five => 5,
            Octave::Six => 6,
            Octave::Seven => 7,
            Octave::Eight => 8,
        }
    }

    /// Reads an octave from its ASCII digit.
    pub fn from_digit(value: u8) -> (r: Result<Octave>)
        ensures
            match r {
                Ok(o) => octave_of_byte(value) == Some(o),
                Err(e) => octave_of_byte(value) is None && e.spec_kind() == Kind::Zinnia,
            },
    {
        if value == 48 {
            Ok(Octave::Zero)
        } else if value == 49 {
            Ok(Octave::One)
        } else if value == 50 {
            Ok(Octave::Two)
        } else if value == 51 {
            Ok(Octave::Three)
        } else if value == 52 {
            Ok(Octave::Four)
        } else if value == 53 {
            Ok(Octave::Five)
        } else if value == 54 {
            Ok(Octave::Six)
        } else if value == 55 {
            Ok(Octave::Seven)
        } else if value == 56 {
            Ok(Octave::Eight)
        } else {
            Err(Error::new("Invalid Octave", Kind::Zinnia))
        }
    }
}

/// A note of the twelve-tone scale in a given octave.
#[derive(Clone, Copy, Debug, PartialEq, Eq, Structural)]
pub enum Note {
    A(Octave),
    ASharp(Octave),
    BFlat(Octave),
    B(Octave),
    C(Octave),
    CSharp(Octave),
    DFlat(Octave),
    D(Octave),
    DSharp(Octave),
    EFlat(Octave),
    E(Octave),
    F(Octave),
    FSharp(Octave),
    GFlat(Octave),
    G(Octave),
    GSharp(Octave),
    AFlat(Octave),
}

/// The offset of a note within its octave, counted in keys from C.
pub open spec fn key_offset(n: Note) -> int {
    match n {
        Note::C(_) => 0,
        Note::CSharp(_) | Note::DFlat(_) => 1,
        Note::D(_) => 2,
        Note::DSharp(_) | Note::EFlat(_) => 3,
        Note::E(_) => 4,
        Note::F(_) => 5,
        Note::FSharp(_) | Note::GFlat(_) => 6,
        Note::G(_) => 7,
        Note::GSharp(_) | Note::AFlat(_) => 8,
        Note::A(_) => 9,
        Note::ASharp(_) | Note::BFlat(_) => 10,
        Note::B(_) => 11,
    }
}

/// The octave a note belongs to.
pub open spec fn note_octave(n: Note) -> Octave {
    match n {
        Note::A(o) | Note::ASharp(o) | Note::BFlat(o) | Note::B(o) | Note::C(o)
        | Note::CSharp(o) | Note::DFlat(o) | Note::D(o) | Note::DSharp(o) | Note::EFlat(o)
        | Note::E(o) | Note::F(o) | Note::FSharp(o) | Note::GFlat(o) | Note::G(o)
        | Note::GSharp(o) | Note::AFlat(o) => o,
    }
}

/// The key number of a note counted over the whole keyboard; key 1 is A0
/// and key 88 is C8, so values outside `1 ..= 88` name no physical key.
pub open spec fn spec_key_number(n: Note) -> int {
    octave_number(note_octave(n)) * KEYS_PER_OCTAVE + key_offset(n) - START_KEY_OFFSET
}

/// True of an ASCII whitespace byte.
pub open spec fn is_ascii_ws(b: u8) -> bool {
    b == 32 || b == 9 || b == 10 || b == 12 || b == 13
}

/// The sequence with leading ASCII whitespace removed.
pub open spec fn trim_front(s: Seq<u8>) -> Seq<u8>
    decreases s.len(),
{
    if s.len() > 0 && is_ascii_ws(s[0]) {
        trim_front(s.drop_first())
    } else {
        s
    }
}

/// The sequence with trailing ASCII whitespace removed.
pub open spec fn trim_back(s: Seq<u8>) -> Seq<u8>
    decreases s.len(),
{
    if s.len() > 0 && is_ascii_ws(s.last()) {
        trim_back(s.drop_last())
    } else {
        s
    }
}

/// The sequence with ASCII whitespace removed from both ends.
pub open spec fn spec_trim(s: Seq<u8>) -> Seq<u8> {
    trim_back(trim_front(s))
}

/// An ASCII byte folded to lower case.
pub open spec fn lower_byte(b: u8) -> u8 {
    if 65 <= b <= 90 {
        (b + 32) as u8
    } else {
        b
    }
}

/// The natural note named by a lower-case ASCII letter, if any.
pub open spec fn note_of_letter(b: u8, o: Octave) -> Option<Note> {
    if b == 97 {
        Some(Note::A(o))
    } else if b == 98 {
        Some(Note::B(o))
    } else if b == 99 {
        Some(Note::C(o))
    } else if b == 100 {
        Some(Note::D(o))
    } else if b == 101 {
        Some(Note::E(o))
    } else if b == 102 {
        Some(Note::F(o))
    } else if b == 103 {
        Some(Note::G(o))
    } else {
        None
    }
}

/// What parsing a token yields: a note, or the stage that rejected it.
#[derive(Clone, Copy, Debug, PartialEq, Eq, Structural)]
pub enum ParseOutcome {
    /// The token named this note.
    Parsed(Note),
    /// The first byte of the trimmed token is no octave digit.
    BadOctave,
    /// The token is too short or its second byte is no note letter.
    BadNote,
}

/// The meaning of a token: its bytes are trimmed of ASCII whitespace, the
/// first remaining byte must be an octave digit and the second a note
/// letter, case folded.
pub open spec fn parse_spec(s: Seq<u8>) -> ParseOutcome {
    let t = spec_trim(s);
    if t.len() == 0 {
        ParseOutcome::BadNote
    } else {
        match octave_of_byte(t[0]) {
            Option::None => ParseOutcome::BadOctave,
            Option::Some(o) => {
                if t.len() < 2 {
                    ParseOutcome::BadNote
                } else {
                    match note_of_letter(lower_byte(t[1]), o) {
                        Option::None => ParseOutcome::BadNote,
                        Option::Some(n) => ParseOutcome::Parsed(n),
                    }
                }
            },
        }
    }
}

/// True of an ASCII whitespace byte.
fn is_ws(b: u8) -> (r: bool)
    ensures
        r == is_ascii_ws(b),
{
    b == 32 || b == 9 || b == 10 || b == 12 || b == 13
}

impl Note {
    /// Reads a note from a token such as `4a` or ` 3C `: an octave digit,
    /// then a note letter of either case, with surrounding ASCII
    /// whitespace ignored.
    pub fn parse(symbol: &str) -> (r: Result<Note>)
        ensures
            match r {
                Ok(n) => parse_spec(symbol.spec_bytes()) == ParseOutcome::Parsed(n),
                Err(e) => {
                    &&& !(parse_spec(symbol.spec_bytes()) is Parsed)
                    &&& e.spec_kind() == Kind::Zinnia
                },
            },
    {
        let bytes = symbol.as_bytes();
        let ghost all: Seq<u8> = bytes@;
        let mut start: usize = 0;
        let mut end: usize = bytes.len();
        proof {
            assert(all.skip(0) =~= all);
        }

        while start < end && is_ws(bytes[start])
            invariant
                start <= end == all.len(),
                all == bytes@,
                trim_front(all) == trim_front(all.skip(start as int)),
            decreases end - start,
        {
            proof {
                assert(all.skip(start as int).drop_first() =~= all.skip(start as int + 1));
            }
            start = start + 1;
        }

        proof {
            // The front loop stopped on a non-whitespace byte or ran out,
            // so what is left is exactly the front-trimmed sequence.
            assert(trim_front(all.skip(start as int)) == all.skip(start as int));
            assert(all.subrange(start as int, all.len() as int) =~= all.skip(start as int));
        }

        while end > start && is_ws(bytes[end - 1])
            invariant
                start <= end <= all.len(),
                all == bytes@,
                trim_front(all) == all.skip(start as int),
                trim_back(all.skip(start as int)) == trim_back(all.subrange(start as int, end as int)),
            decreases end,
        {
            proof {
                assert(all.subrange(start as int, end as int).drop_last() =~= all.subrange(
                    start as int,
                    end as int - 1,
                ));
            }
            end = end - 1;
        }

        let ghost t: Seq<u8> = all.subrange(start as int, end as int);
        proof {
            assert(trim_back(t) == t);
            assert(spec_trim(all) == t);
        }

        if start == end {
            return Err(Error::new("Failed to parse note", Kind::Zinnia));
        }

        let first = bytes[start];
        let octave = match Octave::from_digit(first) {
            Ok(o) => o,
            Err(e) => {
                return Err(e);
            },
        };

        if end - start < 2 {
            return Err(Error::new("Failed to parse note", Kind::Zinnia));
        }

        let second = bytes[start + 1];
        let lowered: u8 = if 65 <= second && second <= 90 {
            second + 32
        } else {
            second
        };

        let note = if lowered == 97 {
            Note::A(octave)
        } else if lowered == 98 {
            Note::B(octave)
        } else if lowered == 99 {
            Note::C(octave)
        } else if lowered == 100 {
            Note::D(octave)
        } else if lowered == 101 {
            Note::E(octave)
        } else if lowered == 102 {
            Note::F(octave)
        } else if lowered == 103 {
            Note::G(octave)
        } else {
            return Err(Error::new("Failed to parse note", Kind::Zinnia));
        };
        Ok(note)
    }

    /// The key number of the note on the eighty-eight key keyboard, or an
    /// error when the note lies outside it.
    pub fn key_number(&self) -> (r: Result<u32>)
        ensures
            match r {
                Ok(k) => 1 <= spec_key_number(*self) <= 88 && k == spec_key_number(*self),
                Err(e) => {
                    &&& !(1 <= spec_key_number(*self) <= 88)
                    &&& e.spec_kind() == Kind::Zinnia
                },
            },
    {
        let offset: u32 = match self {
            Note::C(_) => 0,
            Note::CSharp(_) | Note::DFlat(_) => 1,
            Note::D(_) => 2,
            Note::DSharp(_) | Note::EFlat(_) => 3,
            Note::E(_) => 4,
            Note::F(_) => 5,
            Note::FSharp(_) | Note::GFlat(_) => 6,
            Note::G(_) => 7,
            Note::GSharp(_) | Note::AFlat(_) => 8,
            Note::A(_) => 9,
            Note::ASharp(_) | Note::BFlat(_) => 10,
            Note::B(_) => 11,
        };
        let octave = match self {
            Note::A(o) | Note::ASharp(o) | Note::BFlat(o) | Note::B(o) | Note::C(o)
            | Note::CSharp(o) | Note::DFlat(o) | Note::D(o) | Note::DSharp(o) | Note::EFlat(o)
            | Note::E(o) | Note::F(o) | Note::FSharp(o) | Note::GFlat(o) | Note::G(o)
            | Note::GSharp(o) | Note::AFlat(o) => o,
        };
        let key: u32 = octave.number() * KEYS_PER_OCTAVE + offset;
        if key < 1 + START_KEY_OFFSET || key > 88 + START_KEY_OFFSET {
            Err(Error::new("Invalid Note", Kind::Zinnia))
        } else {
            Ok(key - START_KEY_OFFSET)
        }
    }
}

} // verus!
