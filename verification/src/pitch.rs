//! Note names, octaves and accidentals, and their pitch offsets.

use vstd::prelude::*;
use vstd::string::StrSliceExecFns;

verus! {

/// The seven note names.
#[derive(Debug, Clone, Copy, PartialEq, Eq, Structural)]
pub enum NoteName {
    C,
    D,
    E,
    F,
    G,
    A,
    B,
}

/// Accidentals, in steps of a quarter tone.
#[derive(Debug, Clone, Copy, PartialEq, Eq, Structural)]
pub enum Accidental {
    Flat,
    HalfFlat,
    Natural,
    HalfSharp,
    Sharp,
}

/// The octaves `Zero` to `Nine`; `Four` holds the reference pitch, A at 440 Hz.
#[derive(Debug, Clone, Copy, PartialEq, Eq, Structural)]
pub enum Octave {
    Zero,
    One,
    Two,
    Three,
    Four,
    Five,
    Six,
    Seven,
    Eight,
    Nine,
}

/// A note: its name, its octave and its accidental.
#[derive(Debug, Clone, Copy, PartialEq, Eq, Structural)]
pub struct Note {
    pub note: NoteName,
    pub octave: Octave,
    pub accidental: Accidental,
}

/// A move of one octave.
#[derive(Debug, Clone, Copy, PartialEq, Eq, Structural)]
pub enum Offset {
    OctaveUp,
    OctaveDown,
}

/// Semitones of a note name above `C`.
pub open spec fn note_semitones(n: NoteName) -> int {
    match n {
        NoteName::C => 0,
        NoteName::D => 2,
        NoteName::E => 4,
        NoteName::F => 5,
        NoteName::G => 7,
        NoteName::A => 9,
        NoteName::B => 11,
    }
}

/// Quarter tones that an accidental raises a note by.
pub open spec fn accidental_quarter_tones(a: Accidental) -> int {
    match a {
        Accidental::Flat => -2,
        Accidental::HalfFlat => -1,
        Accidental::Natural => 0,
        Accidental::HalfSharp => 1,
        Accidental::Sharp => 2,
    }
}

/// The number of an octave, `0` to `9`.
pub open spec fn octave_number(o: Octave) -> int {
    match o {
        Octave::Zero => 0,
        Octave::One => 1,
        Octave::Two => 2,
        Octave::Three => 3,
        Octave::Four => 4,
        Octave::Five => 5,
        Octave::Six => 6,
        Octave::Seven => 7,
        Octave::Eight => 8,
        Octave::Nine => 9,
    }
}

/// The octave with number `n`, if `0 <= n <= 9`.
pub open spec fn octave_of_number(n: int) -> Option<Octave> {
    if n == 0 { Some(Octave::Zero) }
    else if n == 1 { Some(Octave::One) }
    else if n == 2 { Some(Octave::Two) }
    else if n == 3 { Some(Octave::Three) }
    else if n == 4 { Some(Octave::Four) }
    else if n == 5 { Some(Octave::Five) }
    else if n == 6 { Some(Octave::Six) }
    else if n == 7 { Some(Octave::Seven) }
    else if n == 8 { Some(Octave::Eight) }
    else if n == 9 { Some(Octave::Nine) }
    else { None }
}

/// The pitch of a note in quarter tones above the reference pitch, `A`
/// natural of octave `Four` at 440 Hz, so that the frequency is
/// `440 * 2^(offset / 24)` Hz.
pub open spec fn pitch_offset(n: Note) -> int {
    2 * (note_semitones(n.note) - note_semitones(NoteName::A)) + 24 * (octave_number(n.octave) - 4)
        + accidental_quarter_tones(n.accidental)
}

/// The octave one step up or down from `o`, if there is one.
pub open spec fn shifted_octave(o: Octave, offset: Offset) -> Option<Octave> {
    match offset {
        Offset::OctaveUp => octave_of_number(octave_number(o) + 1),
        Offset::OctaveDown => octave_of_number(octave_number(o) - 1),
    }
}

impl Octave {
    /// The number of this octave, `0` to `9`.
    pub fn number(&self) -> (r: i32)
        ensures
            r == octave_number(*self),
    {
        match self {
            Octave::Zero => 0,
            Octave::One => 1,
            Octave::Two => 2,
            Octave::Three => 3,
            Octave::Four => 4,
            Octave::Five => 5,
            Octave::Six => 6,
            Octave::Seven => 7,
            Octave::Eight => 8,
            Octave::Nine => 9,
        }
    }

    /// The octave with number `n`, if `0 <= n <= 9`.
    pub fn from_number(n: i32) -> (r: Option<Octave>)
        ensures
            r == octave_of_number(n as int),
    {
        if n == 0 { Some(Octave::Zero) }
        else if n == 1 { Some(Octave::One) }
        else if n == 2 { Some(Octave::Two) }
        else if n == 3 { Some(Octave::Three) }
        else if n == 4 { Some(Octave::Four) }
        else if n == 5 { Some(Octave::Five) }
        else if n == 6 { Some(Octave::Six) }
        else if n == 7 { Some(Octave::Seven) }
        else if n == 8 { Some(Octave::Eight) }
        else if n == 9 { Some(Octave::Nine) }
        else { None }
    }

    /// The octave one step up or down, if there is one.
    pub fn shifted(&self, offset: Offset) -> (r: Option<Octave>)
        ensures
            r == shifted_octave(*self, offset),
    {
        let n = self.number();
        match offset {
            Offset::OctaveUp => Octave::from_number(n + 1),
            Offset::OctaveDown => Octave::from_number(n - 1),
        }
    }
}

impl Note {
    /// The pitch of this note in quarter tones above `A` natural of octave
    /// `Four`, the note that sounds at 440 Hz.
    pub fn pitch_offset(&self) -> (r: i32)
        ensures
            r == pitch_offset(*self),
    {
        let accidental_offset: i32 = match self.accidental {
            Accidental::Flat => -2,
            Accidental::HalfFlat => -1,
            Accidental::Natural => 0,
            Accidental::HalfSharp => 1,
            Accidental::Sharp => 2,
        };
        let note_offset: i32 = match self.note {
            NoteName::C => 0,
            NoteName::D => 2,
            NoteName::E => 4,
            NoteName::F => 5,
            NoteName::G => 7,
            NoteName::A => 9,
            NoteName::B => 11,
        };
        let octave_offset: i32 = self.octave.number() - 4;
        2 * (note_offset - 9) + 24 * octave_offset + accidental_offset
    }
}

/// The state of reading a line of notes.
#[derive(Debug)]
pub struct ParseState {
    pub unparsed: String,
    pub base_octave: Octave,
    pub notes: Vec<Note>,
    pub last_named_note: Note,
    pub last_offset: Offset,
}

/// The octave move that a character stands for: `/` down, `\` up.
pub open spec fn offset_of_char(c: char) -> Option<Offset> {
    if c == '/' {
        Some(Offset::OctaveDown)
    } else if c == '\\' {
        Some(Offset::OctaveUp)
    } else {
        None
    }
}

/// What reading an octave move from the text `u` on base octave `base`
/// gives: the rest of the text, the new base octave and the move.
pub open spec fn octave_move(u: Seq<char>, base: Octave) -> Option<(Seq<char>, Octave, Offset)> {
    if u.len() > 0 {
        match offset_of_char(u[0]) {
            Some(off) => match shifted_octave(base, off) {
                Some(o) => Some((u.drop_first(), o, off)),
                None => None,
            },
            None => None,
        }
    } else {
        None
    }
}

fn copy_notes(v: &Vec<Note>) -> (r: Vec<Note>)
    ensures
        r@ == v@,
{
    let mut r: Vec<Note> = Vec::new();
    for i in 0..v.len()
        invariant
            r@ == v@.take(i as int),
    {
        r.push(v[i]);
        assert(r@ =~= v@.take(i + 1));
    }
    assert(v@.take(v.len() as int) =~= v@);
    r
}

impl ParseState {
    /// Reads an octave move (`/` down, `\` up) from the start of the
    /// unparsed text: the new state has the moved base octave, records
    /// the move, and has the rest of the text unparsed. There is none when
    /// the text does not start with a move, or when the move would leave
    /// the octaves `Zero` to `Nine`.
    pub fn parse_octave_offset(&self) -> (r: Option<ParseState>)
        ensures
            match octave_move(self.unparsed@, self.base_octave) {
                Some((rest, o, off)) => r matches Some(st) && {
                    &&& st.unparsed@ == rest
                    &&& st.base_octave == o
                    &&& st.last_offset == off
                    &&& st.notes@ == self.notes@
                    &&& st.last_named_note == self.last_named_note
                },
                None => r is None,
            },
    {
        let text = self.unparsed.as_str();
        let n = text.unicode_len();
        if n == 0 {
            return None;
        }
        let first = text.get_char(0);
        let offset = if first == '/' {
            Offset::OctaveDown
        } else if first == '\\' {
            Offset::OctaveUp
        } else {
            return None;
        };
        match self.base_octave.shifted(offset) {
            Some(o) => {
                let rest = text.substring_char(1, n).to_owned();
                assert(rest@ =~= self.unparsed@.drop_first());
                Some(ParseState {
                    unparsed: rest,
                    base_octave: o,
                    notes: copy_notes(&self.notes),
                    last_named_note: self.last_named_note,
                    last_offset: offset,
                })
            },
            None => None,
        }
    }
}

/// Reading `\` (up) and then `/` (down) comes back to the base octave it
/// started from.
pub proof fn law_octave_up_then_down(u: Seq<char>, base: Octave)
    requires
        octave_move(u, base) matches Some((rest, o, off)) && off == Offset::OctaveUp
            && rest.len() > 0 && rest[0] == '/',
    ensures
        octave_move(u, base) matches Some((rest, o, off))
            && octave_move(rest, o) == Some((rest.drop_first(), base, Offset::OctaveDown)),
{
}

/// A note one octave higher is 24 quarter tones (12 semitones) higher.
pub proof fn law_octave_up_raises_pitch(n: Note, o: Octave)
    requires
        shifted_octave(n.octave, Offset::OctaveUp) == Some(o),
    ensures
        pitch_offset(Note { octave: o, ..n }) == pitch_offset(n) + 24,
{
}

/// Only `/` and `\` are octave moves. A move is read exactly when the
/// text starts with `/` on a base octave above `Zero` or with `\` on one
/// below `Nine`; it then consumes that one character, and `/` lowers the
/// base octave by one while `\` raises it by one.
pub proof fn law_octave_move_chars(u: Seq<char>, base: Octave)
    ensures
        octave_move(u, base) is Some <==> (u.len() > 0 && ((u[0] == '/' && octave_number(base) > 0) || (u[0]
            == '\\' && octave_number(base) < 9))),
        octave_move(u, base) matches Some((rest, o, off)) ==> {
            &&& rest == u.drop_first()
            &&& u[0] == '/' ==> off == Offset::OctaveDown && octave_number(o) == octave_number(base) - 1
            &&& u[0] == '\\' ==> off == Offset::OctaveUp && octave_number(o) == octave_number(base) + 1
        },
{
}

/// An accidental moves every note by the same amount, whatever its name and
/// octave: a sharp raises it by two quarter tones, a half sharp by one, a
/// half flat lowers it by one and a flat by two.
pub proof fn law_accidental_shift(n: NoteName, o: Octave)
    ensures
        pitch_offset(Note { note: n, octave: o, accidental: Accidental::Sharp }) == pitch_offset(
            Note { note: n, octave: o, accidental: Accidental::Natural },
        ) + 2,
        pitch_offset(Note { note: n, octave: o, accidental: Accidental::HalfSharp }) == pitch_offset(
            Note { note: n, octave: o, accidental: Accidental::Natural },
        ) + 1,
        pitch_offset(Note { note: n, octave: o, accidental: Accidental::HalfFlat }) == pitch_offset(
            Note { note: n, octave: o, accidental: Accidental::Natural },
        ) - 1,
        pitch_offset(Note { note: n, octave: o, accidental: Accidental::Flat }) == pitch_offset(
            Note { note: n, octave: o, accidental: Accidental::Natural },
        ) - 2,
{
}

/// `A` natural of octave `Four` is the reference pitch, and going up the
/// names of an octave the pitch rises by a whole tone (four quarter tones)
/// but from `E` to `F` and from `B` to the next octave's `C`, where it
/// rises by a semitone (two quarter tones), whatever the accidental.
pub proof fn law_note_steps(o: Octave, a: Accidental)
    ensures
        pitch_offset(Note { note: NoteName::A, octave: Octave::Four, accidental: Accidental::Natural }) == 0,
        pitch_offset(Note { note: NoteName::D, octave: o, accidental: a }) == pitch_offset(
            Note { note: NoteName::C, octave: o, accidental: a },
        ) + 4,
        pitch_offset(Note { note: NoteName::E, octave: o, accidental: a }) == pitch_offset(
            Note { note: NoteName::D, octave: o, accidental: a },
        ) + 4,
        pitch_offset(Note { note: NoteName::F, octave: o, accidental: a }) == pitch_offset(
            Note { note: NoteName::E, octave: o, accidental: a },
        ) + 2,
        pitch_offset(Note { note: NoteName::G, octave: o, accidental: a }) == pitch_offset(
            Note { note: NoteName::F, octave: o, accidental: a },
        ) + 4,
        pitch_offset(Note { note: NoteName::A, octave: o, accidental: a }) == pitch_offset(
            Note { note: NoteName::G, octave: o, accidental: a },
        ) + 4,
        pitch_offset(Note { note: NoteName::B, octave: o, accidental: a }) == pitch_offset(
            Note { note: NoteName::A, octave: o, accidental: a },
        ) + 4,
        shifted_octave(o, Offset::OctaveUp) matches Some(up) ==> pitch_offset(
            Note { note: NoteName::C, octave: up, accidental: a },
        ) == pitch_offset(Note { note: NoteName::B, octave: o, accidental: a }) + 2,
{
}

} // verus!
