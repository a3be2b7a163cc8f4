use score_lang::pitch::{Accidental, Note, NoteName, Octave, Offset, ParseState};

fn note(n: NoteName, o: Octave, a: Accidental) -> Note {
    Note { note: n, octave: o, accidental: a }
}

fn state(text: &str, base: Octave) -> ParseState {
    let n = note(NoteName::C, Octave::Four, Accidental::Natural);
    ParseState {
        unparsed: text.to_string(),
        base_octave: base,
        notes: vec![n],
        last_named_note: n,
        last_offset: Offset::OctaveUp,
    }
}

#[test]
fn pitch_offsets_of_notes() {
    assert_eq!(note(NoteName::A, Octave::Four, Accidental::Natural).pitch_offset(), 0);
    assert_eq!(note(NoteName::C, Octave::Four, Accidental::Natural).pitch_offset(), -18);
    assert_eq!(note(NoteName::B, Octave::Zero, Accidental::Sharp).pitch_offset(), 4 - 96 + 2);
    assert_eq!(note(NoteName::E, Octave::Nine, Accidental::HalfFlat).pitch_offset(), -10 + 120 - 1);
    assert_eq!(note(NoteName::F, Octave::Three, Accidental::Flat).pitch_offset(), -8 - 24 - 2);
    assert_eq!(note(NoteName::G, Octave::Five, Accidental::HalfSharp).pitch_offset(), -4 + 24 + 1);
    assert_eq!(note(NoteName::D, Octave::Two, Accidental::Natural).pitch_offset(), -14 - 48);
    assert_eq!(note(NoteName::A, Octave::Five, Accidental::Natural).pitch_offset(), 24);
}

#[test]
fn octave_up_raises_pitch_by_24() {
    let low = note(NoteName::D, Octave::Six, Accidental::Flat);
    let high = note(NoteName::D, Octave::Seven, Accidental::Flat);
    assert_eq!(high.pitch_offset(), low.pitch_offset() + 24);
    assert_eq!(Octave::Six.shifted(Offset::OctaveUp), Some(Octave::Seven));
}

#[test]
fn octave_numbers_round_trip() {
    for n in 0..10 {
        assert_eq!(Octave::from_number(n).unwrap().number(), n);
    }
    assert_eq!(Octave::from_number(10), None);
    assert_eq!(Octave::from_number(-1), None);
    assert_eq!(Octave::Nine.shifted(Offset::OctaveUp), None);
    assert_eq!(Octave::Zero.shifted(Offset::OctaveDown), None);
}

#[test]
fn octave_offset_down_and_up() {
    let s = state("\\/c", Octave::Four);
    let up = s.parse_octave_offset().unwrap();
    assert_eq!(up.base_octave, Octave::Five);
    assert_eq!(up.unparsed, "/c");
    assert_eq!(up.last_offset, Offset::OctaveUp);
    assert_eq!(up.notes, s.notes);
    let down = up.parse_octave_offset().unwrap();
    assert_eq!(down.base_octave, Octave::Four);
    assert_eq!(down.unparsed, "c");
    assert_eq!(down.last_offset, Offset::OctaveDown);
}

#[test]
fn octave_offset_needs_a_move() {
    assert!(state("c/", Octave::Four).parse_octave_offset().is_none());
    assert!(state("", Octave::Four).parse_octave_offset().is_none());
    assert!(state("é/", Octave::Four).parse_octave_offset().is_none());
}

#[test]
fn octave_offset_stays_within_octaves() {
    assert!(state("\\", Octave::Nine).parse_octave_offset().is_none());
    assert!(state("/", Octave::Zero).parse_octave_offset().is_none());
    let s = state("/", Octave::Nine).parse_octave_offset().unwrap();
    assert_eq!(s.base_octave, Octave::Eight);
    assert_eq!(s.unparsed, "");
}
