use noteblock_studio::midi::{
    absolute_pitch,
    InstrumentID, Note, Pattern, PatternID, PatternInstance, Pitch, Tick, TrackID,
};

fn pitch(pitch: i16, tune: i16) -> Pitch {
    Pitch { pitch, tune }
}

fn note_at(time: usize) -> Note {
    Note {
        instrument: InstrumentID(0),
        pitch: pitch(0, 0),
        velocity_bits: 1.0f32.to_bits(),
        pan_bits: 0.0f32.to_bits(),
        time: Tick(time),
    }
}

fn pattern_with(times: &[usize]) -> Pattern {
    Pattern {
        id: PatternID(1),
        name: String::from("p"),
        notes: times.iter().map(|t| note_at(*t)).collect(),
        duration: Tick(0),
    }
}

#[test]
fn new_carries_tuning_into_semitones() {
    assert_eq!(Pitch::new(1, 150), pitch(2, 50));
    assert_eq!(Pitch::new(3, 0), pitch(3, 0));
    assert_eq!(Pitch::new(0, 99), pitch(0, 99));
}

#[test]
fn normalize_negative_totals_round_semitones_down() {
    // -50 cents: semitones rounded down to -1, remainder keeps the sign of the total.
    assert_eq!(Pitch::new(0, -50), pitch(-1, -50));
    assert_eq!(Pitch::new(0, -100), pitch(-1, 0));
    assert_eq!(Pitch::new(-2, 0), pitch(-2, 0));
}

#[test]
fn normalize_saturates_semitones() {
    assert_eq!(Pitch::new(i16::MAX, 300), pitch(i16::MAX, 0));
    assert_eq!(Pitch::new(i16::MIN, -300), pitch(i16::MIN, 0));
}

#[test]
fn cents_is_total() {
    assert_eq!(pitch(2, 50).cents(), 250);
    assert_eq!(pitch(-1, -50).cents(), -150);
    assert_eq!(pitch(i16::MIN, i16::MIN).cents(), -3_309_568);
}

#[test]
fn normalize_keeps_nonnegative_cents_and_is_idempotent() {
    let p = pitch(-3, 420);
    let n = p.normalize();
    assert_eq!(n, pitch(1, 20));
    assert_eq!(n.cents(), p.cents());
    assert_eq!(n.normalize(), n);
}

#[test]
fn normalize_shifts_negative_non_multiples() {
    // The law of idempotence does not hold here: each pass moves 100 cents down.
    let n = Pitch::new(0, -50);
    assert_eq!(n.normalize(), pitch(-2, -50));
}

#[test]
fn normalized_tune_stays_within_a_semitone() {
    for t in [-32768i16, -1000, -199, -100, -1, 0, 1, 99, 100, 12345, 32767] {
        let n = Pitch::new(0, t);
        assert!(n.tune > -100 && n.tune < 100);
        if t >= 0 {
            assert!(n.tune >= 0);
        } else {
            assert!(n.tune <= 0);
        }
    }
}

#[test]
fn pitch_add_and_sub() {
    assert_eq!(pitch(1, 50) + pitch(0, 60), pitch(2, 10));
    assert_eq!(pitch(0, 60) + pitch(1, 50), pitch(2, 10));
    assert_eq!(pitch(2, 10) - pitch(1, 50), pitch(0, 60));
    assert_eq!(pitch(5, -30) - pitch(5, -30), pitch(0, 0));
    let a = pitch(4, 70);
    let b = pitch(-1, 45);
    assert_eq!((a + b).cents(), a.cents() + b.cents());
}

#[test]
fn tick_add() {
    assert_eq!(Tick(3) + Tick(4), Tick(7));
    assert_eq!(Tick(0) + Tick(0), Tick(0));
}

#[test]
fn duration_prefers_end_time() {
    let inst = PatternInstance {
        pattern: PatternID(1),
        time: Tick(10),
        end_time: Some(Tick(40)),
        track: TrackID(0),
    };
    assert_eq!(inst.duration(&pattern_with(&[1, 99])), Tick(40));
}

#[test]
fn duration_is_latest_note_time() {
    let inst = PatternInstance {
        pattern: PatternID(1),
        time: Tick(10),
        end_time: None,
        track: TrackID(0),
    };
    assert_eq!(inst.duration(&pattern_with(&[4, 17, 2, 17, 9])), Tick(17));
    assert_eq!(inst.duration(&pattern_with(&[])), Tick(0));
    assert_eq!(inst.duration(&pattern_with(&[0])), Tick(0));
}

#[test]
fn subtracting_undoes_adding() {
    let a = pitch(1, 20);
    let b = pitch(0, 30);
    assert_eq!((a + b) - b, a);
    let c = pitch(7, 95);
    let d = pitch(2, 80);
    assert_eq!((c + d) - d, c);
}

#[test]
fn absolute_pitch_transposes_and_removes_base() {
    assert_eq!(absolute_pitch(pitch(1, 50), pitch(12, 0), pitch(0, 20)), pitch(13, 30));
    assert_eq!(absolute_pitch(pitch(0, 0), pitch(0, 0), pitch(0, 0)), pitch(0, 0));
}
