//! A whole song: metadata, the registry of reusable parts, and the placed patterns.
use vstd::prelude::*;
use crate::midi::{
    Instrument, InstrumentID, Note, Pattern, PatternID, PatternInstance, Sample, SampleID,
    TimeSignature, TrackID,
};

verus! {

/// Descriptive data of a project. `tps` (ticks per second) is a single-precision
/// number and the two timestamps are double-precision seconds since the Unix
/// epoch; all three are kept as their IEEE-754 bit patterns.
#[derive(Clone, Debug)]
pub struct Metadata {
    pub name: String,
    pub description: String,
    pub author: String,
    pub creation_time_bits: u64,
    pub updated_time_bits: Option<u64>,
    pub tps_bits: u32,
    pub time_signature: TimeSignature,
}

/// A mixer track. `volume` and `pan` are single-precision numbers kept as
/// their IEEE-754 bit patterns.
#[derive(Clone, Debug)]
pub struct Track {
    pub id: TrackID,
    pub name: String,
    pub volume_bits: u32,
    pub pan_bits: u32,
}

/// The reusable parts of a project, looked up by their identifiers.
#[derive(Clone, Debug)]
pub struct Registry {
    pub patterns: Vec<Pattern>,
    pub samples: Vec<Sample>,
    pub instruments: Vec<Instrument>,
    pub tracks: Vec<Track>,
}

/// A song: its metadata, its registry, and the pattern instances placed in time.
#[derive(Clone, Debug)]
pub struct Project {
    pub metadata: Metadata,
    pub registry: Registry,
    pub patterns: Vec<PatternInstance>,
}

/// `r` is the index of the first entry of `ids` equal to `id`, or `None` when
/// no entry is.
pub open spec fn is_first_index(ids: Seq<u8>, id: u8, r: Option<usize>) -> bool {
    match r {
        Some(i) => {
            &&& i < ids.len()
            &&& ids[i as int] == id
            &&& forall|j: int| 0 <= j < i ==> ids[j] != id
        },
        None => forall|j: int| 0 <= j < ids.len() ==> ids[j] != id,
    }
}

/// The index of the first entry of `ids` equal to `id`, if there is one.
pub open spec fn first_index(ids: Seq<u8>, id: u8) -> Option<usize> {
    if exists|i: usize| is_first_index(ids, id, Some(i)) {
        Some(choose|i: usize| is_first_index(ids, id, Some(i)))
    } else {
        None
    }
}

/// Only one answer is the first index: `is_first_index` determines it.
pub proof fn lemma_first_index_determined(ids: Seq<u8>, id: u8, r: Option<usize>)
    requires
        is_first_index(ids, id, r),
    ensures
        r == first_index(ids, id),
{
    match r {
        Some(i) => {
            let j = choose|j: usize| is_first_index(ids, id, Some(j));
            assert(is_first_index(ids, id, Some(j)));
            if j < i {
                assert(ids[j as int] == id);
            } else if i < j {
                assert(ids[i as int] == id);
            }
        },
        None => {
            if exists|i: usize| is_first_index(ids, id, Some(i)) {
                let i = choose|i: usize| is_first_index(ids, id, Some(i));
                assert(ids[i as int] == id);
            }
        },
    }
}

impl Registry {
    /// The identifiers of the patterns, in order.
    pub open spec fn pattern_ids(&self) -> Seq<u8> {
        self.patterns@.map_values(|p: Pattern| p.id.0)
    }

    /// The identifiers of the samples, in order.
    pub open spec fn sample_ids(&self) -> Seq<u8> {
        self.samples@.map_values(|s: Sample| s.id.0)
    }

    /// The identifiers of the instruments, in order.
    pub open spec fn instrument_ids(&self) -> Seq<u8> {
        self.instruments@.map_values(|i: Instrument| i.id.0)
    }

    /// The identifiers of the tracks, in order.
    pub open spec fn track_ids(&self) -> Seq<u8> {
        self.tracks@.map_values(|t: Track| t.id.0)
    }

    /// Where the pattern with identifier `id` is kept: the first match.
    pub fn pattern_index(&self, id: PatternID) -> (r: Option<usize>)
        ensures
            is_first_index(self.pattern_ids(), id.0, r),
            r == first_index(self.pattern_ids(), id.0),
    {
        let mut i: usize = 0;
        while i < self.patterns.len()
            invariant
                i <= self.patterns@.len(),
                forall|j: int| 0 <= j < i ==> self.pattern_ids()[j] != id.0,
            decreases self.patterns@.len() - i,
        {
            if self.patterns[i].id.0 == id.0 {
                proof { lemma_first_index_determined(self.pattern_ids(), id.0, Some(i)); }
                return Some(i);
            }
            i = i + 1;
        }
        proof { lemma_first_index_determined(self.pattern_ids(), id.0, None); }
        None
    }

    /// Where the sample with identifier `id` is kept: the first match.
    pub fn sample_index(&self, id: SampleID) -> (r: Option<usize>)
        ensures
            is_first_index(self.sample_ids(), id.0, r),
            r == first_index(self.sample_ids(), id.0),
    {
        let mut i: usize = 0;
        while i < self.samples.len()
            invariant
                i <= self.samples@.len(),
                forall|j: int| 0 <= j < i ==> self.sample_ids()[j] != id.0,
            decreases self.samples@.len() - i,
        {
            if self.samples[i].id.0 == id.0 {
                proof { lemma_first_index_determined(self.sample_ids(), id.0, Some(i)); }
                return Some(i);
            }
            i = i + 1;
        }
        proof { lemma_first_index_determined(self.sample_ids(), id.0, None); }
        None
    }

    /// Where the instrument with identifier `id` is kept: the first match.
    pub fn instrument_index(&self, id: InstrumentID) -> (r: Option<usize>)
        ensures
            is_first_index(self.instrument_ids(), id.0, r),
            r == first_index(self.instrument_ids(), id.0),
    {
        let mut i: usize = 0;
        while i < self.instruments.len()
            invariant
                i <= self.instruments@.len(),
                forall|j: int| 0 <= j < i ==> self.instrument_ids()[j] != id.0,
            decreases self.instruments@.len() - i,
        {
            if self.instruments[i].id.0 == id.0 {
                proof { lemma_first_index_determined(self.instrument_ids(), id.0, Some(i)); }
                return Some(i);
            }
            i = i + 1;
        }
        proof { lemma_first_index_determined(self.instrument_ids(), id.0, None); }
        None
    }

    /// Where the track with identifier `id` is kept: the first match.
    pub fn track_index(&self, id: TrackID) -> (r: Option<usize>)
        ensures
            is_first_index(self.track_ids(), id.0, r),
            r == first_index(self.track_ids(), id.0),
    {
        let mut i: usize = 0;
        while i < self.tracks.len()
            invariant
                i <= self.tracks@.len(),
                forall|j: int| 0 <= j < i ==> self.track_ids()[j] != id.0,
            decreases self.tracks@.len() - i,
        {
            if self.tracks[i].id.0 == id.0 {
                proof { lemma_first_index_determined(self.track_ids(), id.0, Some(i)); }
                return Some(i);
            }
            i = i + 1;
        }
        proof { lemma_first_index_determined(self.track_ids(), id.0, None); }
        None
    }
    /// The instrument that `note` asks for and the sample that instrument plays,
    /// as indices into `instruments` and `samples`; `None` when either is missing.
    pub fn note_sample(&self, note: &Note) -> (r: Option<(usize, usize)>)
        ensures
            match first_index(self.instrument_ids(), note.instrument.0) {
                None => r is None,
                Some(i) => match first_index(
                    self.sample_ids(),
                    self.instruments@[i as int].sample.0,
                ) {
                    None => r is None,
                    Some(s) => r == Some((i, s)),
                },
            },
    {
        match self.instrument_index(note.instrument) {
            None => None,
            Some(i) => match self.sample_index(self.instruments[i].sample) {
                None => None,
                Some(s) => Some((i, s)),
            },
        }
    }
}

} // verus!
