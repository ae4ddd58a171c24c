//! The tick scheduler of the audio renderer: which pattern instances sound at
//! each tick, which notes start, and when the song is over.
use vstd::prelude::*;
use vstd::multiset::Multiset;
use crate::midi::{instance_duration, Note, PatternInstance, Tick};
use crate::project::{first_index, Project};
use crate::slots::{
    active_slot_values, active_slots, after_insert, after_retain, dropped_slots, free_slots,
    insert_active_slot, lemma_present_fill, lemma_present_full, lemma_present_push,
    lemma_present_retain, new_active_slots, present, retain_sounding_slots, slot_entries,
    slots_wf, still_sounding, ActivePattern, ActiveSlots,
};

verus! {

broadcast use vstd::seq_lib::group_to_multiset_ensures;

/// A note to start playing: the pattern and note it comes from (indices into
/// `Registry::patterns` and that pattern's `notes`) and the track that plays it.
#[derive(Clone, Copy, PartialEq, Eq, Debug, Structural)]
pub struct NoteStart {
    pub pattern: usize,
    pub note: usize,
    pub track: usize,
}

/// How many instances of `s` begin before tick `t`.
pub open spec fn count_before(s: Seq<PatternInstance>, t: int) -> nat
    decreases s.len(),
{
    if s.len() == 0 {
        0
    } else {
        count_before(s.drop_last(), t) + if s.last().time.0 < t {
            1nat
        } else {
            0nat
        }
    }
}

/// How many instances of `s` begin at tick `t`.
pub open spec fn count_at(s: Seq<PatternInstance>, t: int) -> nat
    decreases s.len(),
{
    if s.len() == 0 {
        0
    } else {
        count_at(s.drop_last(), t) + if s.last().time.0 == t {
            1nat
        } else {
            0nat
        }
    }
}

/// The sounding entry that the instance at index `i` of the project makes when
/// it begins: its pattern and track are looked up by identifier; without both
/// it makes none.
pub open spec fn entry_for(project: Project, i: int) -> Option<ActivePattern> {
    let inst = project.patterns@[i];
    let reg = project.registry;
    match (first_index(reg.pattern_ids(), inst.pattern.0), first_index(reg.track_ids(), inst.track.0)) {
        (Some(p), Some(t)) => Some(
            ActivePattern {
                instance: i as usize,
                pattern: p,
                track: t,
                start: inst.time,
                duration: instance_duration(inst, reg.patterns@[p as int]),
            },
        ),
        _ => None,
    }
}

/// The entries made by the first `n` instances of the project that begin at `tick`.
pub open spec fn started_entries(project: Project, n: nat, tick: Tick) -> Multiset<ActivePattern>
    decreases n,
{
    if n == 0 {
        Multiset::empty()
    } else {
        let i = n - 1;
        started_entries(project, (n - 1) as nat, tick).add(
            if project.patterns@[i].time == tick && entry_for(project, i) is Some {
                Multiset::singleton(entry_for(project, i).unwrap())
            } else {
                Multiset::empty()
            },
        )
    }
}

/// Slots and free list after inserting, in instance order, the entries of the
/// first `n` instances of the project that begin at `tick`.
pub open spec fn started_state(
    project: Project,
    n: nat,
    tick: Tick,
    start: (Seq<Option<ActivePattern>>, Seq<usize>),
) -> (Seq<Option<ActivePattern>>, Seq<usize>)
    decreases n,
{
    if n == 0 {
        start
    } else {
        let i = n - 1;
        let prev = started_state(project, (n - 1) as nat, tick, start);
        if project.patterns@[i].time == tick && entry_for(project, i) is Some {
            after_insert(prev.0, prev.1, entry_for(project, i).unwrap())
        } else {
            prev
        }
    }
}

/// Some instance of the song begins at `tick` or later.
pub open spec fn song_has_more(project: Project, tick: Tick) -> bool {
    exists|i: int| 0 <= i < project.patterns@.len() && project.patterns@[i].time.0 >= tick.0
}

/// The entry's indices point into the project, and it is the entry its
/// instance makes.
pub open spec fn refers_into(a: ActivePattern, project: Project) -> bool {
    &&& entry_for(project, a.instance as int) == Some(a)
    &&& a.instance < project.patterns@.len()
    &&& a.pattern < project.registry.patterns@.len()
    &&& a.track < project.registry.tracks@.len()
}

/// The notes of `notes` that start at `tick` for the sounding entry `a`, in order.
pub open spec fn pattern_note_starts(notes: Seq<Note>, a: ActivePattern, tick: Tick) -> Seq<NoteStart>
    decreases notes.len(),
{
    if notes.len() == 0 {
        seq![]
    } else {
        pattern_note_starts(notes.drop_last(), a, tick) + if notes.last().time.0 + a.start.0
            == tick.0 {
            seq![NoteStart { pattern: a.pattern, note: (notes.len() - 1) as usize, track: a.track }]
        } else {
            seq![]
        }
    }
}

/// The notes that start at `tick` for the entries `actives`, taken in that order.
pub open spec fn note_starts(project: Project, actives: Seq<ActivePattern>, tick: Tick) -> Seq<NoteStart>
    decreases actives.len(),
{
    if actives.len() == 0 {
        seq![]
    } else {
        let a = actives.last();
        note_starts(project, actives.drop_last(), tick) + pattern_note_starts(
            project.registry.patterns@[a.pattern as int].notes@,
            a,
            tick,
        )
    }
}

proof fn lemma_count_split(s: Seq<PatternInstance>, t: int)
    ensures
        count_before(s, t + 1) == count_before(s, t) + count_at(s, t),
        count_before(s, t) <= s.len(),
        count_before(s, t) + count_at(s, t) <= s.len(),
    decreases s.len(),
{
    if s.len() > 0 {
        lemma_count_split(s.drop_last(), t);
    }
}

proof fn lemma_count_at_prefix(s: Seq<PatternInstance>, i: int, t: int)
    requires
        0 <= i <= s.len(),
    ensures
        count_at(s.take(i), t) <= count_at(s, t),
    decreases s.len() - i,
{
    if i < s.len() {
        lemma_count_at_prefix(s, i + 1, t);
        assert(s.take(i + 1).drop_last() =~= s.take(i));
    } else {
        assert(s.take(i) =~= s);
    }
}

proof fn lemma_started_entries_bound(project: Project, n: nat, tick: Tick)
    requires
        n <= project.patterns@.len(),
        project.patterns@.len() <= u32::MAX,
    ensures
        started_entries(project, n, tick).len() <= count_at(project.patterns@.take(n as int), tick.0 as int),
        forall|a: ActivePattern| #[trigger]
            started_entries(project, n, tick).count(a) > 0 ==> refers_into(a, project),
    decreases n,
{
    broadcast use vstd::multiset::group_multiset_axioms;

    if n > 0 {
        lemma_started_entries_bound(project, (n - 1) as nat, tick);
        let s = project.patterns@;
        assert(s.take(n as int).drop_last() =~= s.take(n - 1));
        let i = n - 1;
        if project.patterns@[i].time == tick && entry_for(project, i) is Some {
            let inst = project.patterns@[i];
            let reg = project.registry;
            let p = first_index(reg.pattern_ids(), inst.pattern.0).unwrap();
            let t = first_index(reg.track_ids(), inst.track.0).unwrap();
            assert(crate::project::is_first_index(reg.pattern_ids(), inst.pattern.0, Some(p)));
            assert(crate::project::is_first_index(reg.track_ids(), inst.track.0, Some(t)));
            let e = entry_for(project, i).unwrap();
            assert(e.instance as int == i);
        }
    }
}

proof fn lemma_filter_len(m: Multiset<ActivePattern>, tick: Tick)
    ensures
        m.filter(still_sounding(tick)).len() <= m.len(),
        forall|a: ActivePattern| #[trigger] m.filter(still_sounding(tick)).count(a) <= m.count(a),
{
    broadcast use vstd::multiset::group_multiset_axioms;

    let f = still_sounding(tick);
    let g = |a: ActivePattern| !a.sounds_at(tick);
    assert(m.filter(f).add(m.filter(g)) =~= m);
}

/// Among the first `n` instances, a tick starts an entry once exactly when the
/// entry is the one its own instance makes and that instance begins at the tick;
/// it starts no other entry.
pub proof fn lemma_started_entries_count(project: Project, n: nat, tick: Tick, a: ActivePattern)
    requires
        n <= project.patterns@.len(),
    ensures
        started_entries(project, n, tick).count(a) == if a.instance < n && project.patterns@[a.instance as int].time == tick
            && entry_for(project, a.instance as int) == Some(a) {
            1nat
        } else {
            0nat
        },
    decreases n,
{
    broadcast use vstd::multiset::group_multiset_axioms;

    if n > 0 {
        lemma_started_entries_count(project, (n - 1) as nat, tick, a);
        let i = n - 1;
        assert(project.patterns.len() == project.patterns@.len());
        if entry_for(project, i) is Some {
            assert(entry_for(project, i).unwrap().instance == i);
        }
    }
}

/// A tick keeps each sounding entry whose end (its start plus its duration) lies
/// after the tick, as many times as it was there, and drops every other one.
pub proof fn lemma_kept_until_end(m: Multiset<ActivePattern>, tick: Tick, a: ActivePattern)
    ensures
        m.filter(still_sounding(tick)).count(a) == if a.start.0 + a.duration.0 > tick.0 {
            m.count(a)
        } else {
            0
        },
{
    broadcast use vstd::multiset::group_multiset_axioms;

}

/// The state of the scheduler: the project, the frame and tick counters, the
/// pattern instances sounding, and whether any instance still lies ahead.
pub struct AudioRenderContext<'a> {
    project: &'a Project,
    current_frame: usize,
    tick_start_frame: usize,
    tick: Tick,
    current_patterns: ActiveSlots,
    has_more: bool,
}

impl<'a> AudioRenderContext<'a> {
    /// The project being rendered.
    pub closed spec fn project(&self) -> Project {
        *self.project
    }

    /// The next tick to poll.
    pub closed spec fn tick_count(&self) -> Tick {
        self.tick
    }

    /// The frame being produced.
    pub closed spec fn frame_count(&self) -> usize {
        self.current_frame
    }

    /// The frame at which the last tick began.
    pub closed spec fn tick_frame(&self) -> usize {
        self.tick_start_frame
    }

    /// Whether an instance began at the last polled tick or lies ahead of it.
    pub closed spec fn more_ahead(&self) -> bool {
        self.has_more
    }

    /// The pattern instances sounding.
    pub closed spec fn sounding(&self) -> Multiset<ActivePattern> {
        active_slots(self.current_patterns)
    }

    /// The slots of the sounding instances and the free list of their store.
    pub closed spec fn slot_state(&self) -> (Seq<Option<ActivePattern>>, Seq<usize>) {
        (slot_entries(self.current_patterns), free_slots(self.current_patterns))
    }

    /// The sounding instances in the order their store hands them out.
    pub closed spec fn sounding_order(&self) -> Seq<ActivePattern> {
        present(slot_entries(self.current_patterns))
    }

    /// The sounding instances, taken as a multiset, are those handed out in order.
    pub proof fn lemma_sounding_in_order(&self)
        ensures
            self.sounding() == self.sounding_order().to_multiset(),
    {
    }

    /// Every sounding entry points into the project, and the slot map stays far
    /// from its capacity.
    closed spec fn refs_ok(&self) -> bool {
        &&& self.project.patterns@.len() + 3 <= u32::MAX
        &&& slots_wf(slot_entries(self.current_patterns), free_slots(self.current_patterns))
        &&& forall|a: ActivePattern| #[trigger]
            self.sounding().count(a) > 0 ==> refers_into(a, *self.project)
    }

    /// The scheduler's invariant.
    pub closed spec fn wf(&self) -> bool {
        &&& self.refs_ok()
        &&& self.sounding().len() <= count_before(self.project.patterns@, self.tick.0 as int)
    }

    /// A scheduler at frame 0 and tick 0 with nothing sounding. The slot map keeps
    /// slot indices in a `u32`, so the project may hold at most `u32::MAX - 3`
    /// pattern instances.
    pub fn new(project: &'a Project) -> (ctx: AudioRenderContext<'a>)
        requires
            project.patterns@.len() + 3 <= u32::MAX,
        ensures
            ctx.wf(),
            ctx.project() == *project,
            ctx.tick_count() == Tick(0),
            ctx.frame_count() == 0,
            ctx.tick_frame() == 0,
            ctx.more_ahead(),
            ctx.sounding() == Multiset::<ActivePattern>::empty(),
            ctx.slot_state() == (Seq::<Option<ActivePattern>>::empty(), Seq::<usize>::empty()),
    {
        AudioRenderContext {
            project,
            current_frame: 0,
            tick_start_frame: 0,
            tick: Tick(0),
            current_patterns: new_active_slots(32),
            has_more: true,
        }
    }

    /// The next tick to poll.
    pub fn tick(&self) -> (t: Tick)
        ensures
            t == self.tick_count(),
    {
        self.tick
    }

    /// The frame being produced.
    pub fn current_frame(&self) -> (f: usize)
        ensures
            f == self.frame_count(),
    {
        self.current_frame
    }

    /// Whether an instance began at the last polled tick or lies ahead of it.
    pub fn has_more(&self) -> (b: bool)
        ensures
            b == self.more_ahead(),
    {
        self.has_more
    }

    /// The notes that start at the current tick: for each sounding instance (in
    /// slot order), each note of its pattern whose time, counted from
    /// the instance's start, is the current tick.
    fn notes_starting(&self) -> (starts: Vec<NoteStart>)
        requires
            self.refs_ok(),
        ensures
            starts@ == note_starts(self.project(), self.sounding_order(), self.tick_count()),
    {
        let values = active_slot_values(&self.current_patterns);
        let tick = self.tick;
        let mut starts: Vec<NoteStart> = Vec::new();
        let mut k: usize = 0;
        while k < values.len()
            invariant
                k <= values@.len(),
                values@.to_multiset() == self.sounding(),
                self.refs_ok(),
                tick == self.tick,
                starts@ == note_starts(*self.project, values@.take(k as int), tick),
            decreases values@.len() - k,
        {
            let a = values[k];
            assert(values@.contains(a));
            assert(self.sounding().count(a) > 0);
            let notes = &self.project.registry.patterns[a.pattern].notes;
            let ghost before = starts@;
            let mut j: usize = 0;
            while j < notes.len()
                invariant
                    j <= notes@.len(),
                    starts@ == before + pattern_note_starts(notes@.take(j as int), a, tick),
                decreases notes@.len() - j,
            {
                if (notes[j].time.0 as u128) + (a.start.0 as u128) == tick.0 as u128 {
                    starts.push(NoteStart { pattern: a.pattern, note: j, track: a.track });
                }
                assert(notes@.take(j + 1).drop_last() =~= notes@.take(j as int));
                j = j + 1;
            }
            assert(notes@.take(j as int) =~= notes@);
            assert(values@.take(k + 1).drop_last() =~= values@.take(k as int));
            k = k + 1;
        }
        assert(values@.take(k as int) =~= values@);
        starts
    }

    /// Begins the next tick at the current frame: updates the sounding instances
    /// and returns the notes to start, then advances the tick.
    pub fn next_tick(&mut self) -> (starts: Vec<NoteStart>)
        requires
            old(self).wf(),
            old(self).tick_count().0 < usize::MAX,
        ensures
            final(self).wf(),
            final(self).project() == old(self).project(),
            final(self).tick_count().0 == old(self).tick_count().0 + 1,
            final(self).frame_count() == old(self).frame_count(),
            final(self).tick_frame() == old(self).frame_count(),
            final(self).sounding() == old(self).sounding().filter(
                still_sounding(old(self).tick_count()),
            ).add(
                started_entries(
                    old(self).project(),
                    old(self).project().patterns@.len(),
                    old(self).tick_count(),
                ),
            ),
            final(self).more_ahead() == song_has_more(old(self).project(), old(self).tick_count()),
            final(self).slot_state() == started_state(
                old(self).project(),
                old(self).project().patterns@.len(),
                old(self).tick_count(),
                (
                    after_retain(old(self).slot_state().0, old(self).tick_count()),
                    dropped_slots(old(self).slot_state().0, old(self).tick_count())
                        + old(self).slot_state().1,
                ),
            ),
            starts@ == note_starts(
                old(self).project(),
                final(self).sounding_order(),
                old(self).tick_count(),
            ),
            forall|a: ActivePattern| #[trigger]
                final(self).sounding().count(a) > 0 ==> refers_into(a, old(self).project()),
    {
        self.tick_start_frame = self.current_frame;
        self.poll_patterns();
        let starts = self.notes_starting();
        self.tick = Tick(self.tick.0 + 1);
        starts
    }

    /// Drops the instances that no longer sound at the current tick, adds those
    /// that begin at it, and records whether any instance begins at it or later.
    fn poll_patterns(&mut self)
        requires
            old(self).wf(),
        ensures
            final(self).refs_ok(),
            final(self).sounding().len() <= count_before(
                final(self).project().patterns@,
                final(self).tick_count().0 + 1,
            ),
            final(self).project() == old(self).project(),
            final(self).tick_count() == old(self).tick_count(),
            final(self).frame_count() == old(self).frame_count(),
            final(self).tick_frame() == old(self).tick_frame(),
            final(self).sounding() == old(self).sounding().filter(still_sounding(old(self).tick_count()),
            ).add(
                started_entries(
                    old(self).project(),
                    old(self).project().patterns@.len(),
                    old(self).tick_count(),
                ),
            ),
            final(self).more_ahead() == song_has_more(old(self).project(), old(self).tick_count()),
            final(self).slot_state() == started_state(
                old(self).project(),
                old(self).project().patterns@.len(),
                old(self).tick_count(),
                (
                    after_retain(old(self).slot_state().0, old(self).tick_count()),
                    dropped_slots(old(self).slot_state().0, old(self).tick_count())
                        + old(self).slot_state().1,
                ),
            ),
    {
        let ghost before = self.sounding();
        let ghost e0 = slot_entries(self.current_patterns);
        let tick = self.tick;
        retain_sounding_slots(&mut self.current_patterns, tick);
        let ghost filtered = self.sounding();
        let ghost retained = (slot_entries(self.current_patterns), free_slots(self.current_patterns));
        proof {
            lemma_filter_len(before, tick);
            lemma_present_retain(e0, tick);
            broadcast use vstd::multiset::group_multiset_axioms;
            assert(filtered =~= before.filter(still_sounding(tick)));
        }
        self.has_more = false;
        let n = self.project.patterns.len();
        let mut i: usize = 0;
        while i < n
            invariant
                n == self.project.patterns@.len(),
                i <= n,
                self.project == old(self).project,
                self.tick == tick,
                tick == old(self).tick,
                self.current_frame == old(self).current_frame,
                self.tick_start_frame == old(self).tick_start_frame,
                self.project.patterns@.len() + 3 <= u32::MAX,
                filtered.len() <= count_before(self.project.patterns@, tick.0 as int),
                forall|a: ActivePattern| #[trigger]
                    filtered.count(a) > 0 ==> refers_into(a, *self.project),
                self.sounding() == filtered.add(started_entries(*self.project, i as nat, tick)),
                slots_wf(slot_entries(self.current_patterns), free_slots(self.current_patterns)),
                (slot_entries(self.current_patterns), free_slots(self.current_patterns))
                    == started_state(*self.project, i as nat, tick, retained),
                self.has_more == exists|j: int|
                    0 <= j < i && self.project.patterns@[j].time.0 >= tick.0,
            decreases n - i,
        {
            let inst = self.project.patterns[i];
            proof {
                lemma_started_entries_bound(*self.project, i as nat, tick);
                lemma_count_split(self.project.patterns@, tick.0 as int);
                lemma_count_at_prefix(self.project.patterns@, i + 1, tick.0 as int);
                assert(self.project.patterns@.take(i + 1).drop_last() =~= self.project.patterns@.take(i as int));
                broadcast use vstd::multiset::group_multiset_axioms;
            }
            if inst.time.0 == tick.0 {
                let pat = self.project.registry.pattern_index(inst.pattern);
                let track = self.project.registry.track_index(inst.track);
                match (pat, track) {
                    (Some(p), Some(t)) => {
                        let duration = inst.duration(&self.project.registry.patterns[p]);
                        let entry = ActivePattern {
                            instance: i,
                            pattern: p,
                            track: t,
                            start: inst.time,
                            duration,
                        };
                        assert(entry_for(*self.project, i as int) == Some(entry));
                        let ghost e1 = slot_entries(self.current_patterns);
                        let ghost f1 = free_slots(self.current_patterns);
                        proof {
                            broadcast use vstd::seq_lib::group_to_multiset_ensures;
                            if f1.len() == 0 {
                                assert forall|k: int| 0 <= k < e1.len() implies (#[trigger] e1[k]) is Some by {
                                    if e1[k] is None {
                                        assert(f1.contains(k as usize));
                                    }
                                }
                                lemma_present_full(e1);
                                assert(present(e1).to_multiset().len() == present(e1).len());
                            }
                        }
                        insert_active_slot(&mut self.current_patterns, entry);
                        proof {
                            if f1.len() > 0 {
                                assert(0 <= f1[0] < e1.len());
                                lemma_present_fill(e1, f1[0] as int, entry);
                            } else {
                                lemma_present_push(e1, entry);
                                vstd::seq_lib::to_multiset_build(present(e1), entry);
                            }
                        }
                    },
                    _ => {},
                }
            }
            if inst.time.0 >= tick.0 {
                self.has_more = true;
            }
            i = i + 1;
            proof {
                broadcast use vstd::multiset::group_multiset_axioms;
                assert(self.sounding() =~= filtered.add(started_entries(*self.project, i as nat, tick)));
                assert((slot_entries(self.current_patterns), free_slots(self.current_patterns))
                    == started_state(*self.project, i as nat, tick, retained));
            }
        }
        proof {
            lemma_started_entries_bound(*self.project, n as nat, tick);
            lemma_count_split(self.project.patterns@, tick.0 as int);
            assert(self.project.patterns@.take(n as int) =~= self.project.patterns@);
            broadcast use vstd::multiset::group_multiset_axioms;
        }
    }
}

/// Frames per second of the rendered audio.
pub const SAMPLE_RATE: u32 = 44100;

/// Renders a project frame by frame: every `samples_per_tick` frames a new tick
/// begins and its notes start. Mixing the sounding notes into a frame is left
/// to the caller, which tells `end_frame` whether any note produced sound.
pub struct AudioRenderer<'a> {
    sample_rate: u32,
    context: AudioRenderContext<'a>,
    samples_per_tick: usize,
}

impl<'a> AudioRenderer<'a> {
    /// The scheduler state.
    pub closed spec fn state(&self) -> AudioRenderContext<'a> {
        self.context
    }

    /// Frames per tick.
    pub closed spec fn frames_per_tick(&self) -> usize {
        self.samples_per_tick
    }

    /// Frames per second.
    pub closed spec fn rate(&self) -> u32 {
        self.sample_rate
    }

    /// A renderer at the start of `project`, at `SAMPLE_RATE` frames per second
    /// with a new tick every `samples_per_tick` frames.
    pub fn new(project: &'a Project, samples_per_tick: usize) -> (r: AudioRenderer<'a>)
        requires
            project.patterns@.len() + 3 <= u32::MAX,
        ensures
            r.state().wf(),
            r.state().project() == *project,
            r.state().tick_count() == Tick(0),
            r.state().frame_count() == 0,
            r.state().tick_frame() == 0,
            r.state().more_ahead(),
            r.state().sounding() == Multiset::<ActivePattern>::empty(),
            r.state().slot_state() == (Seq::<Option<ActivePattern>>::empty(), Seq::<usize>::empty()),
            r.frames_per_tick() == samples_per_tick,
            r.rate() == SAMPLE_RATE,
    {
        AudioRenderer {
            sample_rate: SAMPLE_RATE,
            context: AudioRenderContext::new(project),
            samples_per_tick,
        }
    }

    /// Frames per second.
    pub fn sample_rate(&self) -> (r: u32)
        ensures
            r == self.rate(),
    {
        self.sample_rate
    }

    /// Frames per tick.
    pub fn samples_per_tick(&self) -> (r: usize)
        ensures
            r == self.frames_per_tick(),
    {
        self.samples_per_tick
    }

    /// The scheduler state.
    pub fn context(&self) -> (c: &AudioRenderContext<'a>)
        ensures
            *c == self.state(),
    {
        &self.context
    }

    /// Starts a frame. When the frame number is a multiple of `samples_per_tick`
    /// a new tick begins (see [`AudioRenderContext::next_tick`]) and the notes
    /// to start are returned; otherwise nothing changes and the result is `None`.
    pub fn begin_frame(&mut self) -> (starts: Option<Vec<NoteStart>>)
        requires
            old(self).state().wf(),
            old(self).frames_per_tick() > 0,
            old(self).state().tick_count().0 < usize::MAX,
        ensures
            final(self).state().wf(),
            final(self).frames_per_tick() == old(self).frames_per_tick(),
            final(self).rate() == old(self).rate(),
            final(self).state().project() == old(self).state().project(),
            final(self).state().frame_count() == old(self).state().frame_count(),
            old(self).state().frame_count() % old(self).frames_per_tick() != 0 ==> {
                &&& starts is None
                &&& final(self).state() == old(self).state()
            },
            old(self).state().frame_count() % old(self).frames_per_tick() == 0 ==> {
                let (before, after) = (old(self).state(), final(self).state());
                &&& starts is Some
                &&& after.tick_count().0 == before.tick_count().0 + 1
                &&& after.tick_frame() == before.frame_count()
                &&& after.sounding() == before.sounding().filter(
                    still_sounding(before.tick_count()),
                ).add(
                    started_entries(
                        before.project(),
                        before.project().patterns@.len(),
                        before.tick_count(),
                    ),
                )
                &&& after.more_ahead() == song_has_more(before.project(), before.tick_count())
                &&& after.slot_state() == started_state(
                    before.project(),
                    before.project().patterns@.len(),
                    before.tick_count(),
                    (
                        after_retain(before.slot_state().0, before.tick_count()),
                        dropped_slots(before.slot_state().0, before.tick_count())
                            + before.slot_state().1,
                    ),
                )
                &&& starts.unwrap()@ == note_starts(
                    before.project(),
                    after.sounding_order(),
                    before.tick_count(),
                )
            },
    {
        if self.context.current_frame % self.samples_per_tick == 0 {
            Some(self.context.next_tick())
        } else {
            None
        }
    }

    /// Ends the frame and moves to the next one. The frame is produced exactly
    /// when an instance of the song began at the last tick or lies ahead, or
    /// when a note sounded in it (`has_notes`).
    pub fn end_frame(&mut self, has_notes: bool) -> (produced: bool)
        requires
            old(self).state().frame_count() < usize::MAX,
        ensures
            produced == (old(self).state().more_ahead() || has_notes),
            final(self).state().frame_count() == old(self).state().frame_count() + 1,
            final(self).state().project() == old(self).state().project(),
            final(self).state().tick_count() == old(self).state().tick_count(),
            final(self).state().tick_frame() == old(self).state().tick_frame(),
            final(self).state().more_ahead() == old(self).state().more_ahead(),
            final(self).state().sounding() == old(self).state().sounding(),
            final(self).state().slot_state() == old(self).state().slot_state(),
            old(self).state().wf() ==> final(self).state().wf(),
            final(self).frames_per_tick() == old(self).frames_per_tick(),
            final(self).rate() == old(self).rate(),
    {
        let produced = self.context.has_more || has_notes;
        self.context.current_frame = self.context.current_frame + 1;
        produced
    }
}

/// How many ticks begin within the first `frames` frames, one at every frame
/// whose number is a multiple of `per_tick`.
pub open spec fn ticks_begun(frames: nat, per_tick: nat) -> nat
    decreases frames,
{
    if frames == 0 {
        0
    } else {
        ticks_begun((frames - 1) as nat, per_tick) + if (frames - 1) % (per_tick as int) == 0 {
            1nat
        } else {
            0nat
        }
    }
}

/// Ticks come once every `per_tick` frames, the first at frame 0: after
/// `frames` frames, the number of ticks begun is `frames / per_tick` rounded up.
pub proof fn lemma_tick_cadence(frames: nat, per_tick: nat)
    requires
        per_tick > 0,
    ensures
        ticks_begun(frames, per_tick) == (frames + per_tick - 1) / (per_tick as int),
    decreases frames,
{
    if frames > 0 {
        lemma_tick_cadence((frames - 1) as nat, per_tick);
        let f = frames - 1;
        let p = per_tick as int;
        let q = f / p;
        let r = f % p;
        vstd::arithmetic::div_mod::lemma_fundamental_div_mod(f, p);
        vstd::arithmetic::mul::lemma_mul_is_distributive_add(p, q, 1);
        assert(f + p == p * (q + 1) + r);
        vstd::arithmetic::div_mod::lemma_div_multiples_vanish_fancy(q + 1, r, p);
        if r == 0 {
            assert(f + p - 1 == p * q + (p - 1));
            vstd::arithmetic::div_mod::lemma_div_multiples_vanish_fancy(q, p - 1, p);
        } else {
            assert(f + p - 1 == p * (q + 1) + (r - 1));
            vstd::arithmetic::div_mod::lemma_div_multiples_vanish_fancy(q + 1, r - 1, p);
        }
        assert(ticks_begun(frames, per_tick) == (f + p - 1) / p + (if f % p == 0 { 1int } else { 0int }));
        assert(frames + per_tick - 1 == f + p);
    } else {
        vstd::arithmetic::div_mod::lemma_basic_div(per_tick - 1, per_tick as int);
        assert((per_tick - 1) / (per_tick as int) == 0);
    }
}

proof fn lemma_no_starts_after_end(project: Project, n: nat, tick: Tick)
    requires
        n <= project.patterns@.len(),
        !song_has_more(project, tick),
    ensures
        started_entries(project, n, tick) == Multiset::<ActivePattern>::empty(),
    decreases n,
{
    broadcast use vstd::multiset::group_multiset_axioms;

    if n > 0 {
        lemma_no_starts_after_end(project, (n - 1) as nat, tick);
        assert(project.patterns@[n - 1].time.0 < tick.0);
        assert(started_entries(project, n, tick) =~= Multiset::<ActivePattern>::empty());
    }
}

/// Once no instance lies ahead and none sounds, the next tick starts no note,
/// leaves nothing sounding and nothing ahead: the song stays silent from then on.
pub proof fn lemma_silent_once_over(
    project: Project,
    tick: Tick,
    sounding: Multiset<ActivePattern>,
    order: Seq<ActivePattern>,
)
    requires
        !song_has_more(project, tick),
        sounding == Multiset::<ActivePattern>::empty(),
        tick.0 < usize::MAX,
    ensures
        sounding.filter(still_sounding(tick)).add(
            started_entries(project, project.patterns@.len(), tick),
        ) == Multiset::<ActivePattern>::empty(),
        order.to_multiset() == Multiset::<ActivePattern>::empty() ==> note_starts(
            project,
            order,
            tick,
        ) == Seq::<NoteStart>::empty(),
        !song_has_more(project, Tick((tick.0 + 1) as usize)),
{
    broadcast use vstd::multiset::group_multiset_axioms;

    lemma_no_starts_after_end(project, project.patterns@.len(), tick);
    lemma_filter_len(sounding, tick);
    assert(sounding.filter(still_sounding(tick)) =~= Multiset::<ActivePattern>::empty());
    assert(sounding.filter(still_sounding(tick)).add(Multiset::<ActivePattern>::empty())
        =~= Multiset::<ActivePattern>::empty());
    if order.to_multiset() == Multiset::<ActivePattern>::empty() {
        assert(order.to_multiset().len() == order.len());
        assert(order.len() == 0);
    }
}

proof fn lemma_first_index_found(ids: Seq<u8>, id: u8, j: int)
    requires
        0 <= j < ids.len(),
        ids[j] == id,
        ids.len() <= usize::MAX,
    ensures
        first_index(ids, id) is Some,
    decreases j,
{
    if exists|k: int| 0 <= k < j && ids[k] == id {
        let k = choose|k: int| 0 <= k < j && ids[k] == id;
        lemma_first_index_found(ids, id, k);
    } else {
        assert(crate::project::is_first_index(ids, id, Some(j as usize)));
    }
}

proof fn lemma_first_index_facts(ids: Seq<u8>, id: u8)
    requires
        ids.len() <= usize::MAX,
    ensures
        first_index(ids, id) is None <==> forall|j: int| 0 <= j < ids.len() ==> ids[j] != id,
        first_index(ids, id) matches Some(p) ==> crate::project::is_first_index(ids, id, Some(p)),
{
    if first_index(ids, id) is Some {
        let p = choose|i: usize| crate::project::is_first_index(ids, id, Some(i));
        assert(crate::project::is_first_index(ids, id, Some(p)));
    }
    if exists|j: int| 0 <= j < ids.len() && ids[j] == id {
        let j = choose|j: int| 0 <= j < ids.len() && ids[j] == id;
        lemma_first_index_found(ids, id, j);
    }
}

/// An instance makes a sounding entry exactly when a pattern and a track with
/// its identifiers exist. The entry records the instance, the first pattern and
/// the first track with those identifiers, the instance's start, and the
/// duration of the instance over that pattern.
pub proof fn lemma_entry_for_looks_up(project: Project, i: int)
    requires
        0 <= i < project.patterns@.len(),
    ensures
        ({
            let inst = project.patterns@[i];
            let reg = project.registry;
            &&& (entry_for(project, i) is None) <==> ((forall|j: int|
                0 <= j < reg.patterns@.len() ==> reg.patterns@[j].id != inst.pattern) || (forall|
                j: int,
            |
                0 <= j < reg.tracks@.len() ==> reg.tracks@[j].id != inst.track))
            &&& entry_for(project, i) matches Some(a) ==> {
                &&& a.instance == i
                &&& a.pattern < reg.patterns@.len()
                &&& reg.patterns@[a.pattern as int].id == inst.pattern
                &&& forall|j: int| 0 <= j < a.pattern ==> reg.patterns@[j].id != inst.pattern
                &&& a.track < reg.tracks@.len()
                &&& reg.tracks@[a.track as int].id == inst.track
                &&& forall|j: int| 0 <= j < a.track ==> reg.tracks@[j].id != inst.track
                &&& a.start == inst.time
                &&& a.duration == instance_duration(inst, reg.patterns@[a.pattern as int])
            }
        }),
{
    let inst = project.patterns@[i];
    let reg = project.registry;
    let pids = reg.pattern_ids();
    let tids = reg.track_ids();
    assert(pids.len() == reg.patterns@.len() && tids.len() == reg.tracks@.len());
    assert(project.patterns.len() == project.patterns@.len());
    assert(reg.patterns.len() == reg.patterns@.len());
    assert(reg.tracks.len() == reg.tracks@.len());
    lemma_first_index_facts(pids, inst.pattern.0);
    lemma_first_index_facts(tids, inst.track.0);
    assert forall|j: int| 0 <= j < reg.patterns@.len() implies (pids[j] == inst.pattern.0 <==> reg.patterns@[j].id == inst.pattern) by {}
    assert forall|j: int| 0 <= j < reg.tracks@.len() implies (tids[j] == inst.track.0 <==> reg.tracks@[j].id == inst.track) by {}
    let no_pattern = forall|j: int| 0 <= j < reg.patterns@.len() ==> reg.patterns@[j].id != inst.pattern;
    let no_track = forall|j: int| 0 <= j < reg.tracks@.len() ==> reg.tracks@[j].id != inst.track;
    if no_pattern {
        assert forall|j: int| 0 <= j < pids.len() implies pids[j] != inst.pattern.0 by {
            assert(reg.patterns@[j].id != inst.pattern);
        }
    }
    if forall|j: int| 0 <= j < pids.len() ==> pids[j] != inst.pattern.0 {
        assert forall|j: int| 0 <= j < reg.patterns@.len() implies reg.patterns@[j].id != inst.pattern by {
            assert(pids[j] != inst.pattern.0);
        }
    }
    if no_track {
        assert forall|j: int| 0 <= j < tids.len() implies tids[j] != inst.track.0 by {
            assert(reg.tracks@[j].id != inst.track);
        }
    }
    if forall|j: int| 0 <= j < tids.len() ==> tids[j] != inst.track.0 {
        assert forall|j: int| 0 <= j < reg.tracks@.len() implies reg.tracks@[j].id != inst.track by {
            assert(tids[j] != inst.track.0);
        }
    }
    assert(first_index(pids, inst.pattern.0) is None <==> no_pattern);
    assert(first_index(tids, inst.track.0) is None <==> no_track);
    assert((entry_for(project, i) is None) <==> (no_pattern || no_track));
    if let Some(a) = entry_for(project, i) {
        let p = first_index(pids, inst.pattern.0).unwrap();
        let t = first_index(tids, inst.track.0).unwrap();
        assert(a.pattern == p && a.track == t);
        assert(crate::project::is_first_index(pids, inst.pattern.0, Some(p)));
        assert(crate::project::is_first_index(tids, inst.track.0, Some(t)));
        assert(reg.patterns@[a.pattern as int].id == inst.pattern);
        assert(reg.tracks@[a.track as int].id == inst.track);
        assert(a.instance == i);
        assert(a.pattern < reg.patterns@.len());
        assert(a.track < reg.tracks@.len());
        assert forall|j: int| 0 <= j < a.pattern implies reg.patterns@[j].id != inst.pattern by {
            assert(pids[j] != inst.pattern.0);
        }
        assert forall|j: int| 0 <= j < a.track implies reg.tracks@[j].id != inst.track by {
            assert(tids[j] != inst.track.0);
        }
        assert(a.start == inst.time);
        assert(a.duration == instance_duration(inst, reg.patterns@[a.pattern as int]));
    }
}

/// The note start for note `j` of the entry `a`: its pattern, the note, its track.
pub open spec fn note_start_of(a: ActivePattern, j: int) -> NoteStart {
    NoteStart { pattern: a.pattern, note: j as usize, track: a.track }
}

/// Note `j` of `notes` falls on `tick` when counted from the start of `a`.
pub open spec fn falls_on(notes: Seq<Note>, a: ActivePattern, tick: Tick, j: int) -> bool {
    0 <= j < notes.len() && notes[j].time.0 + a.start.0 == tick.0
}

/// The notes of the pattern of entry `a`.
pub open spec fn notes_of(project: Project, a: ActivePattern) -> Seq<Note> {
    project.registry.patterns@[a.pattern as int].notes@
}

/// The notes of `notes` that start at `tick` for the entry `a` are exactly the
/// notes whose time plus the entry's start is the tick, each on the entry's
/// pattern and track, whatever the other notes of the pattern are.
pub proof fn lemma_pattern_note_starts_members(notes: Seq<Note>, a: ActivePattern, tick: Tick, s: NoteStart)
    ensures
        pattern_note_starts(notes, a, tick).contains(s) <==> (exists|j: int|
            #[trigger] falls_on(notes, a, tick, j) && s == note_start_of(a, j)),
    decreases notes.len(),
{
    if notes.len() > 0 {
        let rest = notes.drop_last();
        lemma_pattern_note_starts_members(rest, a, tick, s);
        let n = notes.len() - 1;
        let tail: Seq<NoteStart> = if notes.last().time.0 + a.start.0 == tick.0 {
            seq![note_start_of(a, n)]
        } else {
            seq![]
        };
        let head = pattern_note_starts(rest, a, tick);
        assert(pattern_note_starts(notes, a, tick) == head + tail);
        if (head + tail).contains(s) {
            let idx = choose|idx: int| 0 <= idx < (head + tail).len() && (head + tail)[idx] == s;
            if idx < head.len() {
                assert(head[idx] == s);
                assert(head.contains(s));
                let j = choose|j: int| #[trigger] falls_on(rest, a, tick, j) && s == note_start_of(a, j);
                assert(notes[j] == rest[j]);
                assert(falls_on(notes, a, tick, j));
            } else {
                assert(tail[idx - head.len()] == s);
                assert(falls_on(notes, a, tick, n));
            }
        }
        if exists|j: int| #[trigger] falls_on(notes, a, tick, j) && s == note_start_of(a, j) {
            let j = choose|j: int| #[trigger] falls_on(notes, a, tick, j) && s == note_start_of(a, j);
            if j < n {
                assert(rest[j] == notes[j]);
                assert(falls_on(rest, a, tick, j));
                assert(head.contains(s));
                let idx = choose|idx: int| 0 <= idx < head.len() && head[idx] == s;
                assert((head + tail)[idx] == s);
            } else {
                assert(tail[0] == s);
                assert((head + tail)[head.len() as int] == s);
            }
        }
    }
}

/// The notes that a tick starts for the entries `actives` are exactly the notes,
/// of each entry's pattern, whose time plus the entry's start is the tick, each
/// on that entry's track.
pub proof fn lemma_note_starts_members(project: Project, actives: Seq<ActivePattern>, tick: Tick, s: NoteStart)
    ensures
        note_starts(project, actives, tick).contains(s) <==> (exists|k: int, j: int|
            0 <= k < actives.len() && #[trigger] falls_on(notes_of(project, actives[k]), actives[k], tick, j)
                && s == note_start_of(actives[k], j)),
    decreases actives.len(),
{
    if actives.len() > 0 {
        let rest = actives.drop_last();
        let a = actives.last();
        let k0 = actives.len() - 1;
        let notes = notes_of(project, a);
        lemma_note_starts_members(project, rest, tick, s);
        lemma_pattern_note_starts_members(notes, a, tick, s);
        let head = note_starts(project, rest, tick);
        let tail = pattern_note_starts(notes, a, tick);
        assert(note_starts(project, actives, tick) == head + tail);
        if (head + tail).contains(s) {
            let idx = choose|idx: int| 0 <= idx < (head + tail).len() && (head + tail)[idx] == s;
            if idx < head.len() {
                assert(head[idx] == s);
                assert(head.contains(s));
                let (k, j) = choose|k: int, j: int|
                    0 <= k < rest.len() && #[trigger] falls_on(notes_of(project, rest[k]), rest[k], tick, j)
                        && s == note_start_of(rest[k], j);
                assert(actives[k] == rest[k]);
                assert(falls_on(notes_of(project, actives[k]), actives[k], tick, j));
            } else {
                assert(tail[idx - head.len()] == s);
                assert(tail.contains(s));
                let j = choose|j: int| #[trigger] falls_on(notes, a, tick, j) && s == note_start_of(a, j);
                assert(actives[k0] == a);
                assert(falls_on(notes_of(project, actives[k0]), actives[k0], tick, j));
            }
        }
        if exists|k: int, j: int|
            0 <= k < actives.len() && #[trigger] falls_on(notes_of(project, actives[k]), actives[k], tick, j)
                && s == note_start_of(actives[k], j) {
            let (k, j) = choose|k: int, j: int|
                0 <= k < actives.len() && #[trigger] falls_on(notes_of(project, actives[k]), actives[k], tick, j)
                    && s == note_start_of(actives[k], j);
            if k < k0 {
                assert(rest[k] == actives[k]);
                assert(falls_on(notes_of(project, rest[k]), rest[k], tick, j));
                assert(head.contains(s));
                let idx = choose|idx: int| 0 <= idx < head.len() && head[idx] == s;
                assert((head + tail)[idx] == s);
            } else {
                assert(falls_on(notes, a, tick, j));
                assert(tail.contains(s));
                let idx = choose|idx: int| 0 <= idx < tail.len() && tail[idx] == s;
                assert((head + tail)[head.len() + idx] == s);
            }
        }
    }
}

/// `s` plays, at `tick`, a note of the instance at index `i` of the project: on
/// the first track and from the first pattern whose identifiers are the
/// instance's, a note whose time counted from the instance's start is the tick.
pub open spec fn plays_note_of(project: Project, i: int, tick: Tick, s: NoteStart) -> bool {
    let inst = project.patterns@[i];
    let reg = project.registry;
    &&& 0 <= i < project.patterns@.len()
    &&& s.track < reg.tracks@.len()
    &&& reg.tracks@[s.track as int].id == inst.track
    &&& forall|j: int| 0 <= j < s.track ==> reg.tracks@[j].id != inst.track
    &&& s.pattern < reg.patterns@.len()
    &&& reg.patterns@[s.pattern as int].id == inst.pattern
    &&& forall|j: int| 0 <= j < s.pattern ==> reg.patterns@[j].id != inst.pattern
    &&& s.note < reg.patterns@[s.pattern as int].notes@.len()
    &&& reg.patterns@[s.pattern as int].notes@[s.note as int].time.0 + inst.time.0 == tick.0
}

/// For entries that point into the project, the notes a tick starts are exactly
/// the notes that some entry's instance plays at that tick: each one on the
/// track of its own instance, and every note of a chord alike.
pub proof fn lemma_note_starts_played(project: Project, actives: Seq<ActivePattern>, tick: Tick, s: NoteStart)
    requires
        forall|k: int| 0 <= k < actives.len() ==> refers_into(#[trigger] actives[k], project),
    ensures
        note_starts(project, actives, tick).contains(s) <==> (exists|k: int|
            0 <= k < actives.len() && #[trigger] plays_note_of(project, actives[k].instance as int, tick, s)),
{
    lemma_note_starts_members(project, actives, tick, s);
    let reg = project.registry;
    if note_starts(project, actives, tick).contains(s) {
        let (k, j) = choose|k: int, j: int|
            0 <= k < actives.len() && #[trigger] falls_on(notes_of(project, actives[k]), actives[k], tick, j)
                && s == note_start_of(actives[k], j);
        let a = actives[k];
        assert(refers_into(a, project));
        lemma_entry_for_looks_up(project, a.instance as int);
        let notes = reg.patterns@[a.pattern as int].notes;
        assert(notes.len() == notes@.len());
        assert(s.note as int == j);
        assert(plays_note_of(project, a.instance as int, tick, s));
    }
    if exists|k: int| 0 <= k < actives.len() && #[trigger] plays_note_of(project, actives[k].instance as int, tick, s) {
        let k = choose|k: int| 0 <= k < actives.len() && #[trigger] plays_note_of(project, actives[k].instance as int, tick, s);
        let a = actives[k];
        assert(refers_into(a, project));
        let inst = project.patterns@[a.instance as int];
        lemma_entry_for_looks_up(project, a.instance as int);
        if s.pattern < a.pattern {
            assert(reg.patterns@[s.pattern as int].id != inst.pattern);
        }
        if a.pattern < s.pattern {
            assert(reg.patterns@[a.pattern as int].id != inst.pattern);
        }
        if s.track < a.track {
            assert(reg.tracks@[s.track as int].id != inst.track);
        }
        if a.track < s.track {
            assert(reg.tracks@[a.track as int].id != inst.track);
        }
        assert(s == note_start_of(a, s.note as int));
        assert(falls_on(notes_of(project, actives[k]), actives[k], tick, s.note as int));
    }
}

/// What a tick starts, read on the scheduler after the tick: each started note
/// comes from a sounding instance, on that instance's own track, and each note of
/// each sounding instance whose time falls on the tick starts.
pub proof fn lemma_started_notes_played(ctx: AudioRenderContext, tick: Tick, s: NoteStart)
    requires
        ctx.wf(),
    ensures
        note_starts(ctx.project(), ctx.sounding_order(), tick).contains(s) <==> (exists|k: int|
            0 <= k < ctx.sounding_order().len() && #[trigger] plays_note_of(
                ctx.project(),
                ctx.sounding_order()[k].instance as int,
                tick,
                s,
            )),
{
    let order = ctx.sounding_order();
    assert forall|k: int| 0 <= k < order.len() implies refers_into(#[trigger] order[k], ctx.project()) by {
        assert(order.contains(order[k]));
        assert(ctx.sounding().count(order[k]) > 0);
    }
    lemma_note_starts_played(ctx.project(), order, tick, s);
}

/// Once no instance begins at or after a tick, none does at any later tick:
/// a song that has run out stays out.
pub proof fn lemma_song_over_stays_over(project: Project, t1: Tick, t2: Tick)
    requires
        t1.0 <= t2.0,
        !song_has_more(project, t1),
    ensures
        !song_has_more(project, t2),
{
}

} // verus!
