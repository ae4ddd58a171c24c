use noteblock_studio::midi::{
    Instrument, InstrumentID, Note, Pattern, PatternID, PatternInstance, Pitch, Sample, SampleID,
    Tick, TimeSignature, TrackID,
};
use noteblock_studio::project::{Metadata, Project, Registry, Track};
use noteblock_studio::schedule::{AudioRenderContext, AudioRenderer, NoteStart, SAMPLE_RATE};
use noteblock_studio::slots::ActivePattern;

fn note(instrument: u8, time: usize) -> Note {
    Note {
        instrument: InstrumentID(instrument),
        pitch: Pitch { pitch: 0, tune: 0 },
        velocity_bits: 1.0f32.to_bits(),
        pan_bits: 0.0f32.to_bits(),
        time: Tick(time),
    }
}

fn instance(pattern: u8, time: usize, end_time: Option<usize>, track: u8) -> PatternInstance {
    PatternInstance {
        pattern: PatternID(pattern),
        time: Tick(time),
        end_time: end_time.map(Tick),
        track: TrackID(track),
    }
}

fn registry() -> Registry {
    Registry {
        patterns: vec![
            Pattern {
                id: PatternID(1),
                name: String::from("intro"),
                notes: vec![note(0, 0), note(0, 2), note(7, 2)],
                duration: Tick(4),
            },
            Pattern {
                id: PatternID(1),
                name: String::from("shadowed"),
                notes: vec![],
                duration: Tick(0),
            },
        ],
        samples: vec![Sample {
            id: SampleID(3),
            source: String::from("~/pling.ogg"),
            base_pitch: Pitch { pitch: 0, tune: 0 },
        }],
        instruments: vec![Instrument {
            id: InstrumentID(0),
            name: String::from("pling"),
            sample: SampleID(3),
            transpose: Pitch { pitch: 12, tune: 0 },
        }],
        tracks: vec![Track {
            id: TrackID(0),
            name: String::from("main"),
            volume_bits: 1.0f32.to_bits(),
            pan_bits: 0.0f32.to_bits(),
        }],
    }
}

fn project(patterns: Vec<PatternInstance>) -> Project {
    Project {
        metadata: Metadata {
            name: String::from("song"),
            description: String::new(),
            author: String::new(),
            creation_time_bits: 0.0f64.to_bits(),
            updated_time_bits: None,
            tps_bits: 20.0f32.to_bits(),
            time_signature: TimeSignature { numerator: 4, denominator: 4 },
        },
        registry: registry(),
        patterns,
    }
}

#[test]
fn registry_lookups_find_first_match() {
    let r = registry();
    assert_eq!(r.pattern_index(PatternID(1)), Some(0));
    assert_eq!(r.pattern_index(PatternID(2)), None);
    assert_eq!(r.track_index(TrackID(0)), Some(0));
    assert_eq!(r.track_index(TrackID(5)), None);
    assert_eq!(r.instrument_index(InstrumentID(0)), Some(0));
    assert_eq!(r.sample_index(SampleID(3)), Some(0));
    assert_eq!(r.sample_index(SampleID(0)), None);
}

#[test]
fn note_sample_follows_instrument_to_sample() {
    let r = registry();
    assert_eq!(r.note_sample(&note(0, 0)), Some((0, 0)));
    assert_eq!(r.note_sample(&note(7, 0)), None);
    let mut broken = registry();
    broken.samples.clear();
    assert_eq!(broken.note_sample(&note(0, 0)), None);
}

#[test]
fn sounding_pattern_ends_after_start_plus_duration() {
    let a = ActivePattern { instance: 0, pattern: 0, track: 0, start: Tick(5), duration: Tick(2) };
    assert!(a.is_sounding_at(Tick(6)));
    assert!(!a.is_sounding_at(Tick(7)));
    let huge = ActivePattern { instance: 0, pattern: 0, track: 0, start: Tick(usize::MAX), duration: Tick(usize::MAX) };
    assert!(huge.is_sounding_at(Tick(usize::MAX)));
}

#[test]
fn context_starts_fresh() {
    let p = project(vec![instance(1, 0, None, 0)]);
    let ctx = AudioRenderContext::new(&p);
    assert_eq!(ctx.tick(), Tick(0));
    assert_eq!(ctx.current_frame(), 0);
    assert!(ctx.has_more());
}

#[test]
fn next_tick_starts_notes_of_beginning_patterns() {
    let p = project(vec![instance(1, 0, None, 0), instance(9, 0, None, 0), instance(1, 0, None, 4)]);
    let mut ctx = AudioRenderContext::new(&p);
    let starts = ctx.next_tick();
    // Only the first instance resolves both its pattern and its track.
    assert_eq!(starts, vec![NoteStart { pattern: 0, note: 0, track: 0 }]);
    assert_eq!(ctx.tick(), Tick(1));
    assert!(ctx.has_more());
    // Duration is the latest note time, 2: the instance sounds at ticks 0 and 1 only.
    assert_eq!(ctx.next_tick(), vec![]);
    assert!(!ctx.has_more());
    assert_eq!(ctx.next_tick(), vec![]);
}

#[test]
fn renderer_ticks_every_samples_per_tick_frames() {
    let p = project(vec![
        instance(1, 1, None, 0),
        instance(9, 3, None, 0),
        instance(1, 5, Some(1), 0),
    ]);
    let mut r = AudioRenderer::new(&p, 2);
    assert_eq!(r.sample_rate(), SAMPLE_RATE);
    assert_eq!(r.samples_per_tick(), 2);
    let mut started: Vec<(usize, NoteStart)> = Vec::new();
    let mut produced: Vec<bool> = Vec::new();
    let mut ticks_begun = 0;
    for frame in 0..14usize {
        if let Some(starts) = r.begin_frame() {
            assert_eq!(frame % 2, 0);
            ticks_begun += 1;
            for s in starts {
                started.push((frame, s));
            }
        } else {
            assert_eq!(frame % 2, 1);
        }
        produced.push(r.end_frame(false));
        assert_eq!(r.context().current_frame(), frame + 1);
    }
    assert_eq!(ticks_begun, 7);
    assert_eq!(r.context().tick(), Tick(7));
    // Tick 1 (frame 2): the first instance begins with its note at time 0.
    // Its notes at time 2 would fall on tick 3, where it no longer sounds.
    // Tick 5 (frame 10): the last instance begins with its note at time 0.
    assert_eq!(
        started,
        vec![
            (2, NoteStart { pattern: 0, note: 0, track: 0 }),
            (10, NoteStart { pattern: 0, note: 0, track: 0 }),
        ]
    );
    // Frames are produced while an instance begins at the last tick or later.
    assert_eq!(produced[..12].iter().all(|b| *b), true);
    assert_eq!(produced[12], false);
    assert_eq!(produced[13], false);
}

#[test]
fn end_frame_produces_while_notes_sound() {
    let p = project(vec![]);
    let mut r = AudioRenderer::new(&p, 1);
    assert!(r.begin_frame().is_some());
    assert!(!r.context().has_more());
    assert!(r.end_frame(true));
    assert!(r.begin_frame().is_some());
    assert!(!r.end_frame(false));
}

#[test]
fn freed_slot_is_reused_and_decides_the_order() {
    let mut p = project(vec![
        instance(1, 0, Some(1), 0),
        instance(2, 0, Some(10), 0),
        instance(3, 2, Some(5), 0),
    ]);
    p.registry.patterns = vec![
        Pattern { id: PatternID(1), name: String::from("a"), notes: vec![note(0, 0)], duration: Tick(1) },
        Pattern { id: PatternID(2), name: String::from("b"), notes: vec![note(0, 0), note(0, 2)], duration: Tick(10) },
        Pattern { id: PatternID(3), name: String::from("c"), notes: vec![note(0, 0)], duration: Tick(5) },
    ];
    let mut ctx = AudioRenderContext::new(&p);
    assert_eq!(
        ctx.next_tick(),
        vec![NoteStart { pattern: 0, note: 0, track: 0 }, NoteStart { pattern: 1, note: 0, track: 0 }]
    );
    // Tick 1: the first instance ends and frees its slot.
    assert_eq!(ctx.next_tick(), vec![]);
    // Tick 2: the third instance takes the freed first slot, so its note comes first.
    assert_eq!(
        ctx.next_tick(),
        vec![NoteStart { pattern: 2, note: 0, track: 0 }, NoteStart { pattern: 1, note: 1, track: 0 }]
    );
}
