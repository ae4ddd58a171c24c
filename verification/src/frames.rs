//! Moving audio samples between stereo frames and interleaved streams.
//!
//! The helpers are generic in the sample type: they only move samples around.
use vstd::prelude::*;

verus! {

/// The interleaved stream of `frames`: left, right, left, right, ...
pub open spec fn interleaved<T>(frames: Seq<(T, T)>) -> Seq<T> {
    Seq::new(
        2 * frames.len(),
        |i: int|
            if i % 2 == 0 {
                frames[i / 2].0
            } else {
                frames[i / 2].1
            },
    )
}

/// The frames made of consecutive pairs of `samples`; a trailing unpaired
/// sample is dropped.
pub open spec fn paired<T>(samples: Seq<T>) -> Seq<(T, T)> {
    Seq::new(samples.len() / 2, |i: int| (samples[2 * i], samples[2 * i + 1]))
}

/// Lays the frames out as one stream: each frame's left sample, then its right.
pub fn interleave<T: Copy>(frames: &Vec<(T, T)>) -> (out: Vec<T>)
    ensures
        out@ == interleaved(frames@),
{
    let mut out: Vec<T> = Vec::new();
    let mut k: usize = 0;
    while k < frames.len()
        invariant
            k <= frames@.len(),
            out@.len() == 2 * k,
            forall|i: int| 0 <= i < 2 * k ==> #[trigger] out@[i] == interleaved(frames@)[i],
        decreases frames@.len() - k,
    {
        let f = frames[k];
        out.push(f.0);
        out.push(f.1);
        k = k + 1;
    }
    assert(out@ =~= interleaved(frames@));
    out
}

/// Groups a stream into frames of two consecutive samples, dropping a trailing
/// unpaired sample.
pub fn pair_up<T: Copy>(samples: &Vec<T>) -> (frames: Vec<(T, T)>)
    ensures
        frames@ == paired(samples@),
{
    let mut frames: Vec<(T, T)> = Vec::new();
    let mut k: usize = 0;
    while k + 1 < samples.len()
        invariant
            k % 2 == 0,
            k <= samples@.len(),
            frames@.len() == k / 2,
            forall|i: int| 0 <= i < k / 2 ==> #[trigger] frames@[i] == paired(samples@)[i],
        decreases samples@.len() - k,
    {
        frames.push((samples[k], samples[k + 1]));
        k = k + 2;
    }
    assert(frames@ =~= paired(samples@));
    frames
}

/// Pairing an interleaved stream gives back the frames.
pub proof fn lemma_pair_interleaved<T>(frames: Seq<(T, T)>)
    ensures
        paired(interleaved(frames)) == frames,
{
    let s = interleaved(frames);
    assert forall|i: int| 0 <= i < frames.len() implies #[trigger] paired(s)[i] == frames[i] by {
        assert((2 * i) % 2 == 0 && (2 * i) / 2 == i);
        assert((2 * i + 1) % 2 == 1 && (2 * i + 1) / 2 == i);
    }
    assert(paired(s) =~= frames);
}

/// Interleaving the pairs of a stream gives back the stream, short of a trailing
/// unpaired sample.
pub proof fn lemma_interleave_paired<T>(samples: Seq<T>)
    ensures
        interleaved(paired(samples)) == samples.take((2 * (samples.len() / 2)) as int),
{
    let f = paired(samples);
    assert forall|i: int| 0 <= i < 2 * f.len() implies #[trigger] interleaved(f)[i] == samples[i] by {
        if i % 2 == 0 {
            assert(2 * (i / 2) == i);
        } else {
            assert(2 * (i / 2) + 1 == i);
        }
    }
    assert(interleaved(f) =~= samples.take((2 * (samples.len() / 2)) as int));
}

/// Hands out the two samples of each stereo frame one at a time. A frame is
/// fetched on channel 0; the call that fetches it hands out its right sample,
/// the following call its left sample.
pub struct FrameSplitter<T> {
    this_frame: Option<(T, T)>,
    channel: usize,
}

/// The state after one call: the frame held and the channel.
pub open spec fn splitter_step<T>(frame: Option<(T, T)>, channel: usize, fetched: Option<(T, T)>) -> (Option<(T, T)>, usize) {
    if channel == 0 {
        (fetched, 1)
    } else if channel == 1 {
        (frame, 0)
    } else {
        (frame, channel)
    }
}

/// The sample handed out in a state: the left one on channel 0, the right one on
/// channel 1, none without a frame.
pub open spec fn splitter_output<T>(frame: Option<(T, T)>, channel: usize) -> Option<T> {
    match frame {
        Some(f) => if channel == 0 {
            Some(f.0)
        } else if channel == 1 {
            Some(f.1)
        } else {
            None
        },
        None => None,
    }
}

impl<T: Copy> FrameSplitter<T> {
    /// The frame held.
    pub closed spec fn frame(&self) -> Option<(T, T)> {
        self.this_frame
    }

    /// The channel: 0 before a fetch, 1 after it.
    pub closed spec fn channel_index(&self) -> usize {
        self.channel
    }

    /// A splitter on channel 0 holding `first`.
    pub fn new(first: (T, T)) -> (s: FrameSplitter<T>)
        ensures
            s.frame() == Some(first),
            s.channel_index() == 0,
    {
        FrameSplitter { this_frame: Some(first), channel: 0 }
    }

    /// Whether the next call of `next_sample` fetches a frame.
    pub fn needs_frame(&self) -> (b: bool)
        ensures
            b == (self.channel_index() == 0),
    {
        self.channel == 0
    }

    /// Hands out the next sample. On channel 0 the frame `fetched` replaces the
    /// one held (the caller fetches it only then; it is ignored otherwise).
    pub fn next_sample(&mut self, fetched: Option<(T, T)>) -> (out: Option<T>)
        ensures
            (final(self).frame(), final(self).channel_index()) == splitter_step(
                old(self).frame(),
                old(self).channel_index(),
                fetched,
            ),
            out == splitter_output(final(self).frame(), final(self).channel_index()),
    {
        if self.channel == 0 {
            self.this_frame = fetched;
            self.channel = 1;
        } else if self.channel == 1 {
            self.channel = 0;
        }
        match self.this_frame {
            Some(f) => if self.channel == 0 {
                Some(f.0)
            } else if self.channel == 1 {
                Some(f.1)
            } else {
                None
            },
            None => None,
        }
    }
}

/// From channel 0, a fetched frame `f` is handed out in two calls, right sample
/// first, then left, and the splitter is back on channel 0 holding `f`.
pub proof fn lemma_splitter_hands_out_frame<T>(held: Option<(T, T)>, f: (T, T), ignored: Option<(T, T)>)
    ensures
        ({
            let (frame1, ch1) = splitter_step(held, 0, Some(f));
            let (frame2, ch2) = splitter_step(frame1, ch1, ignored);
            &&& splitter_output(frame1, ch1) == Some(f.1)
            &&& splitter_output(frame2, ch2) == Some(f.0)
            &&& frame2 == Some(f)
            &&& ch2 == 0
        }),
{
}

/// In the interleaved stream, frame `i` sits at positions `2i` (left) and
/// `2i + 1` (right).
pub proof fn lemma_interleaved_layout<T>(frames: Seq<(T, T)>, i: int)
    requires
        0 <= i < frames.len(),
    ensures
        interleaved(frames).len() == 2 * frames.len(),
        interleaved(frames)[2 * i] == frames[i].0,
        interleaved(frames)[2 * i + 1] == frames[i].1,
{
    assert((2 * i) % 2 == 0 && (2 * i) / 2 == i);
    assert((2 * i + 1) % 2 == 1 && (2 * i + 1) / 2 == i);
}

/// Frame `i` of a paired stream is made of the samples at `2i` (left) and
/// `2i + 1` (right).
pub proof fn lemma_paired_layout<T>(samples: Seq<T>, i: int)
    requires
        0 <= i < samples.len() / 2,
    ensures
        paired(samples).len() == samples.len() / 2,
        paired(samples)[i] == (samples[2 * i], samples[2 * i + 1]),
{
}

} // verus!
