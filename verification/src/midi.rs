//! Musical data types: identifiers, ticks, pitches, notes, patterns.
use vstd::prelude::*;
use vstd::std_specs::ops::{AddSpec, AddSpecImpl, SubSpec, SubSpecImpl};

verus! {

/// Clamps a mathematical integer into the range of `i16`.
pub open spec fn clamp_i16(x: int) -> int {
    if x < i16::MIN {
        i16::MIN as int
    } else if x > i16::MAX {
        i16::MAX as int
    } else {
        x
    }
}

/// The remainder of `c / 100` with the sign of `c` (truncating division).
pub open spec fn trunc_rem_100(c: int) -> int {
    if c >= 0 {
        c % 100
    } else {
        -((-c) % 100)
    }
}


/// Identifies an instrument of the registry.
#[derive(Clone, Copy, PartialEq, Eq, Debug, Structural)]
pub struct InstrumentID(pub u8);

/// Identifies a sample of the registry.
#[derive(Clone, Copy, PartialEq, Eq, Debug, Structural)]
pub struct SampleID(pub u8);

/// Identifies a pattern of the registry.
#[derive(Clone, Copy, PartialEq, Eq, Debug, Structural)]
pub struct PatternID(pub u8);

/// Identifies a track of the registry.
#[derive(Clone, Copy, PartialEq, Eq, PartialOrd, Ord, Debug, Structural)]
pub struct TrackID(pub u8);

/// A point in time, counted in ticks from the start of the song.
#[derive(Clone, Copy, PartialEq, Eq, PartialOrd, Ord, Debug, Structural)]
pub struct Tick(pub usize);

impl core::ops::Add for Tick {
    type Output = Tick;

    /// Adds two tick counts.
    fn add(self, rhs: Tick) -> (t: Tick) {
        Tick(self.0 + rhs.0)
    }
}

impl AddSpecImpl for Tick {
    open spec fn obeys_add_spec() -> bool {
        true
    }

    open spec fn add_req(self, rhs: Tick) -> bool {
        self.0 + rhs.0 <= usize::MAX
    }

    open spec fn add_spec(self, rhs: Tick) -> Tick {
        Tick((self.0 + rhs.0) as usize)
    }
}

/// A pitch: a number of semitones plus a tuning offset, both counted in cents
/// (`pitch` hundreds of cents, `tune` single cents).
#[derive(Clone, Copy, PartialEq, Eq, Debug, Structural)]
pub struct Pitch {
    pub pitch: i16,
    pub tune: i16,
}

impl Pitch {
    /// The total number of cents this pitch stands for.
    pub open spec fn total_cents(self) -> int {
        self.pitch * 100 + self.tune
    }

    /// What `normalize` yields: the whole hundreds of the total (rounded towards
    /// negative infinity, saturated to `i16`) and the truncating remainder.
    pub open spec fn normalized(self) -> Pitch {
        let c = self.total_cents();
        Pitch { pitch: clamp_i16(c / 100) as i16, tune: trunc_rem_100(c) as i16 }
    }

    /// The total number of cents, `pitch * 100 + tune`.
    pub fn cents(&self) -> (c: i32)
        ensures
            c == self.total_cents(),
    {
        self.pitch as i32 * 100 + self.tune as i32
    }

    /// Builds a pitch and normalizes it.
    pub fn new(pitch: i16, tune: i16) -> (p: Pitch)
        ensures
            p == (Pitch { pitch, tune }).normalized(),
    {
        Pitch { pitch, tune }.normalize()
    }

    /// Splits the total number of cents into whole hundreds (rounded down,
    /// saturated to `i16`) and the remainder with the sign of the total.
    pub fn normalize(&self) -> (p: Pitch)
        ensures
            p == self.normalized(),
            -100 < p.tune < 100,
    {
        let c: i32 = self.cents();
        let (q, r): (i32, i32) = if c >= 0 {
            (c / 100, c % 100)
        } else {
            let m: i32 = -c;
            let qt: i32 = m / 100;
            let rt: i32 = m % 100;
            if rt == 0 {
                (-qt, 0)
            } else {
                (-qt - 1, -rt)
            }
        };
        let pitch: i16 = if q < i16::MIN as i32 {
            i16::MIN
        } else if q > i16::MAX as i32 {
            i16::MAX
        } else {
            q as i16
        };
        Pitch { pitch, tune: r as i16 }
    }
}

/// True when `a + b` fits in an `i16`.
pub open spec fn fits_i16(x: int) -> bool {
    i16::MIN <= x <= i16::MAX
}

impl core::ops::Add for Pitch {
    type Output = Pitch;

    /// Adds semitones and tunings separately, then normalizes.
    fn add(self, rhs: Pitch) -> (p: Pitch) {
        Pitch { pitch: self.pitch + rhs.pitch, tune: self.tune + rhs.tune }.normalize()
    }
}

impl AddSpecImpl for Pitch {
    open spec fn obeys_add_spec() -> bool {
        true
    }

    open spec fn add_req(self, rhs: Pitch) -> bool {
        fits_i16(self.pitch + rhs.pitch) && fits_i16(self.tune + rhs.tune)
    }

    open spec fn add_spec(self, rhs: Pitch) -> Pitch {
        (Pitch {
            pitch: (self.pitch + rhs.pitch) as i16,
            tune: (self.tune + rhs.tune) as i16,
        }).normalized()
    }
}

impl core::ops::Sub for Pitch {
    type Output = Pitch;

    /// Subtracts semitones and tunings separately, then normalizes.
    fn sub(self, rhs: Pitch) -> (p: Pitch) {
        Pitch { pitch: self.pitch - rhs.pitch, tune: self.tune - rhs.tune }.normalize()
    }
}

impl SubSpecImpl for Pitch {
    open spec fn obeys_sub_spec() -> bool {
        true
    }

    open spec fn sub_req(self, rhs: Pitch) -> bool {
        fits_i16(self.pitch - rhs.pitch) && fits_i16(self.tune - rhs.tune)
    }

    open spec fn sub_spec(self, rhs: Pitch) -> Pitch {
        (Pitch {
            pitch: (self.pitch - rhs.pitch) as i16,
            tune: (self.tune - rhs.tune) as i16,
        }).normalized()
    }
}

/// A note of a pattern. `velocity` (0.0 silent to 1.0 loudest) and `pan`
/// (-1.0 left, 0.0 center, 1.0 right) are single-precision numbers, kept here
/// as their IEEE-754 bit patterns: this library never computes with them.
#[derive(Clone, Copy, Debug)]
pub struct Note {
    pub instrument: InstrumentID,
    pub pitch: Pitch,
    pub velocity_bits: u32,
    pub pan_bits: u32,
    pub time: Tick,
}

/// A sound sample: where its audio comes from and the pitch it was recorded at.
#[derive(Clone, Debug)]
pub struct Sample {
    pub id: SampleID,
    pub source: String,
    pub base_pitch: Pitch,
}

/// An instrument plays a sample, transposed.
#[derive(Clone, Debug)]
pub struct Instrument {
    pub id: InstrumentID,
    pub name: String,
    pub sample: SampleID,
    pub transpose: Pitch,
}

/// A reusable sequence of notes; note times are relative to the pattern's start.
#[derive(Clone, Debug)]
pub struct Pattern {
    pub id: PatternID,
    pub name: String,
    pub notes: Vec<Note>,
    pub duration: Tick,
}

/// A pattern placed on a track at a point in time.
#[derive(Clone, Copy, PartialEq, Eq, Debug, Structural)]
pub struct PatternInstance {
    pub pattern: PatternID,
    pub time: Tick,
    pub end_time: Option<Tick>,
    pub track: TrackID,
}

/// Beats per bar over the note value of one beat.
#[derive(Clone, Copy, PartialEq, Eq, Debug, Structural)]
pub struct TimeSignature {
    pub numerator: u8,
    pub denominator: u8,
}

/// True when `t` is the latest time of a note in `notes`.
pub open spec fn is_latest_note_time(notes: Seq<Note>, t: usize) -> bool {
    &&& exists|i: int| 0 <= i < notes.len() && notes[i].time.0 == t
    &&& forall|j: int| 0 <= j < notes.len() ==> notes[j].time.0 <= t
}

/// The time of the latest note in `notes` (meaningful when there is a note).
pub open spec fn latest_note_time(notes: Seq<Note>) -> usize {
    choose|t: usize| is_latest_note_time(notes, t)
}

/// Only one time is the latest: `is_latest_note_time` determines it.
pub proof fn lemma_latest_note_time_determined(notes: Seq<Note>, t: usize)
    requires
        is_latest_note_time(notes, t),
    ensures
        t == latest_note_time(notes),
{
    let u = latest_note_time(notes);
    assert(is_latest_note_time(notes, u));
    let i = choose|i: int| 0 <= i < notes.len() && notes[i].time.0 == t;
    let k = choose|k: int| 0 <= k < notes.len() && notes[k].time.0 == u;
    assert(notes[i].time.0 <= u);
    assert(notes[k].time.0 <= t);
}

/// What `PatternInstance::duration` gives for `inst` and `pattern`.
pub open spec fn instance_duration(inst: PatternInstance, pattern: Pattern) -> Tick {
    match inst.end_time {
        Some(e) => e,
        None => if pattern.notes@.len() == 0 {
            Tick(0)
        } else {
            Tick(latest_note_time(pattern.notes@))
        },
    }
}

impl PatternInstance {
    /// How long this instance of `pattern` lasts: its explicit end time when it
    /// has one, else the time of the pattern's latest note, else zero.
    pub fn duration(&self, pattern: &Pattern) -> (d: Tick)
        ensures
            self.end_time matches Some(e) ==> d == e,
            self.end_time is None && pattern.notes@.len() == 0 ==> d.0 == 0,
            self.end_time is None && pattern.notes@.len() > 0 ==> is_latest_note_time(
                pattern.notes@,
                d.0,
            ),
            d == instance_duration(*self, *pattern),
    {
        match self.end_time {
            Some(end_time) => end_time,
            None => {
                let notes = &pattern.notes;
                if notes.len() == 0 {
                    return Tick(0);
                }
                let mut latest: usize = notes[0].time.0;
                let mut i: usize = 1;
                while i < notes.len()
                    invariant
                        1 <= i <= notes@.len(),
                        exists|k: int| 0 <= k < i && notes@[k].time.0 == latest,
                        forall|j: int| 0 <= j < i ==> notes@[j].time.0 <= latest,
                    decreases notes@.len() - i,
                {
                    if notes[i].time.0 >= latest {
                        latest = notes[i].time.0;
                    }
                    i = i + 1;
                }
                proof {
                    lemma_latest_note_time_determined(notes@, latest);
                }
                Tick(latest)
            },
        }
    }
}

/// The pitch at which a sample is played for a note: the note's pitch,
/// transposed by its instrument, less the pitch the sample was recorded at.
pub fn absolute_pitch(note: Pitch, transpose: Pitch, base: Pitch) -> (p: Pitch)
    requires
        AddSpec::add_req(note, transpose),
        SubSpec::sub_req(AddSpec::add_spec(note, transpose), base),
    ensures
        p == SubSpec::sub_spec(AddSpec::add_spec(note, transpose), base),
{
    note + transpose - base
}

/// Normalizing keeps the total number of cents whenever that total is not
/// negative or is a whole number of semitones, and the semitones fit an `i16`.
pub proof fn lemma_normalize_keeps_cents(p: Pitch)
    requires
        p.total_cents() >= 0 || p.total_cents() % 100 == 0,
        fits_i16(p.total_cents() / 100),
    ensures
        p.normalized().total_cents() == p.total_cents(),
{
}

/// Normalizing twice gives the same as normalizing once, on pitches whose
/// total is not negative or is a whole number of semitones.
pub proof fn lemma_normalize_idempotent(p: Pitch)
    requires
        p.total_cents() >= 0 || p.total_cents() % 100 == 0,
    ensures
        p.normalized().normalized() == p.normalized(),
{
}

/// After normalizing, the tuning lies strictly between -100 and 100 cents and
/// has the sign of the total.
pub proof fn lemma_normalized_tune_range(p: Pitch)
    ensures
        -100 < p.normalized().tune < 100,
        p.total_cents() >= 0 ==> p.normalized().tune >= 0,
        p.total_cents() <= 0 ==> p.normalized().tune <= 0,
{
}

/// Adding pitches is commutative.
pub proof fn lemma_pitch_add_commutative(a: Pitch, b: Pitch)
    requires
        AddSpec::add_req(a, b),
    ensures
        AddSpec::add_req(b, a),
        AddSpec::add_spec(a, b) == AddSpec::add_spec(b, a),
{
}

/// Adding pitches adds their cents, negative sums included, when the sum is not
/// negative or is a whole number of semitones, and its semitones fit an `i16`.
pub proof fn lemma_pitch_add_cents(a: Pitch, b: Pitch)
    requires
        AddSpec::add_req(a, b),
        a.total_cents() + b.total_cents() >= 0 || (a.total_cents() + b.total_cents()) % 100 == 0,
        fits_i16((a.total_cents() + b.total_cents()) / 100),
    ensures
        AddSpec::add_spec(a, b).total_cents() == a.total_cents() + b.total_cents(),
{
}

/// Subtracting a pitch from itself gives the zero pitch.
pub proof fn lemma_pitch_sub_self(a: Pitch)
    requires
        SubSpec::sub_req(a, a),
    ensures
        SubSpec::sub_spec(a, a) == (Pitch { pitch: 0, tune: 0 }),
{
}

/// Subtracting what was added gives back a normalized pitch, when both pitches
/// have non-negative cents and the semitones of the sum fit an `i16`.
pub proof fn lemma_pitch_sub_undoes_add(a: Pitch, b: Pitch)
    requires
        a == a.normalized(),
        a.total_cents() >= 0,
        b.total_cents() >= 0,
        AddSpec::add_req(a, b),
        fits_i16((a.total_cents() + b.total_cents()) / 100),
        SubSpec::sub_req(AddSpec::add_spec(a, b), b),
    ensures
        SubSpec::sub_spec(AddSpec::add_spec(a, b), b) == a,
{
}

/// Subtracting pitches subtracts their cents, negative differences included,
/// when the difference is not negative or is a whole number of semitones, and
/// its semitones fit an `i16`.
pub proof fn lemma_pitch_sub_cents(a: Pitch, b: Pitch)
    requires
        SubSpec::sub_req(a, b),
        a.total_cents() - b.total_cents() >= 0 || (a.total_cents() - b.total_cents()) % 100 == 0,
        fits_i16((a.total_cents() - b.total_cents()) / 100),
    ensures
        SubSpec::sub_spec(a, b).total_cents() == a.total_cents() - b.total_cents(),
{
}

/// The pitch a sample is played at has the cents of the note plus those of the
/// transposition less those of the sample's base pitch, under the same
/// conditions on the intermediate sum and the result.
pub proof fn lemma_absolute_pitch_cents(note: Pitch, transpose: Pitch, base: Pitch)
    requires
        AddSpec::add_req(note, transpose),
        note.total_cents() + transpose.total_cents() >= 0 || (note.total_cents()
            + transpose.total_cents()) % 100 == 0,
        fits_i16((note.total_cents() + transpose.total_cents()) / 100),
        SubSpec::sub_req(AddSpec::add_spec(note, transpose), base),
        note.total_cents() + transpose.total_cents() - base.total_cents() >= 0 || (note.total_cents()
            + transpose.total_cents() - base.total_cents()) % 100 == 0,
        fits_i16((note.total_cents() + transpose.total_cents() - base.total_cents()) / 100),
    ensures
        SubSpec::sub_spec(AddSpec::add_spec(note, transpose), base).total_cents()
            == note.total_cents() + transpose.total_cents() - base.total_cents(),
{
    lemma_pitch_add_cents(note, transpose);
    lemma_pitch_sub_cents(AddSpec::add_spec(note, transpose), base);
}

} // verus!
