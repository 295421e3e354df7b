//! The mixing timeline: where each captured frame lands on the common 16 kHz
//! output timeline, how far the mix buffer reaches, and how much of it is
//! ready to emit.
//!
//! Both capture streams run on independent hardware clocks, so frames are
//! placed by capture timestamp, not by counting samples. Output index 0 is the
//! timestamp of the first frame seen; a frame stamped `t` starts at the slot
//! `round((t - anchor) / 62_500 ns)`, never before what has already been
//! drained. Slots no frame reached stay silent, so an idle stream adds
//! silence without stalling the output. Draining holds back the last
//! [`ALIGN_WINDOW_SAMPLES`] of the timeline so a late frame of the other
//! stream can still land in its slot, which keeps the buffer bounded.
//!
//! [`MixBuffer`] keeps one running sum per undrained slot on top of the
//! timeline. It is generic over the sample type: the caller supplies the
//! silence value and the addition, and does its own down-mixing, resampling
//! and scaling.
use vstd::prelude::*;

use super::StreamId;

verus! {

/// Output samples (about 50 ms at 16 kHz) held back from draining.
pub const ALIGN_WINDOW_SAMPLES: u64 = 800;

/// Nanoseconds per output sample at 16 kHz.
pub const NS_PER_SAMPLE: u64 = 62500;

/// Index of a stream in per-stream arrays.
pub open spec fn spec_stream_index(s: StreamId) -> int {
    match s {
        StreamId::Mic => 0,
        StreamId::Loopback => 1,
    }
}

/// Index of a stream in per-stream arrays: the microphone is 0, loopback 1.
pub fn stream_index(s: StreamId) -> (r: usize)
    ensures
        r == spec_stream_index(s),
{
    match s {
        StreamId::Mic => 0,
        StreamId::Loopback => 1,
    }
}

/// The output slot of a frame captured `delta` nanoseconds after the anchor:
/// `delta / 62_500` rounded half away from zero, and 0 for frames stamped at
/// or before the anchor.
pub open spec fn timestamp_slot(delta: int) -> int {
    if delta > 0 {
        (delta + 31250) / 62500
    } else {
        0
    }
}

/// The larger of two integers.
pub open spec fn max_int(a: int, b: int) -> int {
    if a >= b {
        a
    } else {
        b
    }
}

/// Where a frame was placed.
#[derive(Debug, Clone, Copy)]
pub struct Placement {
    /// Output index of the frame's first sample.
    pub start_index: u64,
    /// Position of that sample in the mix buffer (`start_index - base_index`).
    pub offset: u64,
    /// Length the mix buffer must have after the frame is added; new slots
    /// are silence.
    pub buffer_len: u64,
}

/// Bookkeeping of the two-stream mix timeline.
#[derive(Clone, Copy)]
pub struct MixTimeline {
    /// Timestamp (ns) mapped to output index 0; set by the first frame seen.
    anchor_ns: Option<i64>,
    /// Output index of the mix buffer's front element.
    base_index: u64,
    /// Length of the mix buffer.
    buffered: u64,
    /// Exclusive output index the microphone has delivered up to.
    filled_mic: u64,
    /// Exclusive output index the loopback stream has delivered up to.
    filled_loopback: u64,
}

impl MixTimeline {
    /// Timestamp mapped to output index 0, once a frame has been placed.
    pub closed spec fn anchor(&self) -> Option<i64> {
        self.anchor_ns
    }

    /// Output index of the mix buffer's front element (everything before it
    /// has been emitted).
    pub closed spec fn base(&self) -> u64 {
        self.base_index
    }

    /// Length of the mix buffer.
    pub closed spec fn buffered(&self) -> u64 {
        self.buffered
    }

    /// Exclusive output index stream `i` (0 = mic, 1 = loopback) has
    /// delivered up to.
    pub closed spec fn filled(&self, i: int) -> u64 {
        if i == 0 {
            self.filled_mic
        } else {
            self.filled_loopback
        }
    }

    /// The furthest output index either stream has delivered up to.
    pub open spec fn furthest(&self) -> u64 {
        if self.filled(0) >= self.filled(1) {
            self.filled(0)
        } else {
            self.filled(1)
        }
    }

    /// The mix buffer covers exactly the delivered but not yet emitted part
    /// of the timeline: from the base index to the furthest delivered index.
    pub open spec fn wf(&self) -> bool {
        self.buffered() == if self.furthest() > self.base() {
            self.furthest() - self.base()
        } else {
            0
        }
    }

    #[verifier::type_invariant]
    spec fn inv(&self) -> bool {
        self.wf()
    }

    /// The anchor after placing a frame stamped `ts`.
    pub open spec fn anchor_after(&self, ts: i64) -> i64 {
        match self.anchor() {
            Some(a) => a,
            None => ts,
        }
    }

    /// The output index a frame stamped `ts` starts at: its timestamp slot,
    /// clamped to the part of the timeline not yet emitted.
    pub open spec fn start_for(&self, ts: i64) -> int {
        max_int(timestamp_slot(ts - self.anchor_after(ts)), self.base() as int)
    }

    /// A frame of `n` samples stamped `ts` can be placed without overflowing
    /// the timestamp difference or the output index.
    pub open spec fn fits(&self, ts: i64, n: u64) -> bool {
        &&& i64::MIN <= ts - self.anchor_after(ts) <= i64::MAX
        &&& self.start_for(ts) + n <= u64::MAX
    }

    /// An empty timeline.
    pub fn new() -> (t: MixTimeline)
        ensures
            t.anchor() is None,
            t.base() == 0,
            t.buffered() == 0,
            t.filled(0) == 0,
            t.filled(1) == 0,
            t.wf(),
    {
        MixTimeline { anchor_ns: None, base_index: 0, buffered: 0, filled_mic: 0, filled_loopback: 0 }
    }

    /// Timestamp mapped to output index 0, once a frame has been placed.
    pub fn anchor_ns(&self) -> (r: Option<i64>)
        ensures
            r == self.anchor(),
    {
        self.anchor_ns
    }

    /// Output index of the mix buffer's front element.
    pub fn base_index(&self) -> (r: u64)
        ensures
            r == self.base(),
    {
        self.base_index
    }

    /// Length of the mix buffer.
    pub fn buffered_len(&self) -> (r: u64)
        ensures
            r == self.buffered(),
    {
        self.buffered
    }

    /// The furthest output index either stream has delivered up to.
    pub fn max_filled(&self) -> (r: u64)
        ensures
            r == self.furthest(),
    {
        if self.filled_mic >= self.filled_loopback {
            self.filled_mic
        } else {
            self.filled_loopback
        }
    }

    /// Whether a frame of `n` samples stamped `capture_ts_ns` can be placed.
    pub fn placement_fits(&self, capture_ts_ns: i64, n: u64) -> (r: bool)
        ensures
            r == self.fits(capture_ts_ns, n),
            self.anchor() is None ==> (r <==> self.base() + n <= u64::MAX),
            self.anchor() matches Some(a) ==> {
                &&& (capture_ts_ns - a < i64::MIN || capture_ts_ns - a > i64::MAX) ==> !r
                &&& (i64::MIN <= capture_ts_ns - a && capture_ts_ns <= a) ==> (r <==> self.base()
                    + n <= u64::MAX)
                &&& (a < capture_ts_ns && capture_ts_ns - a <= i64::MAX && self.base() + n
                    <= u64::MAX && (capture_ts_ns - a) / 62500 + 1 + n <= u64::MAX) ==> r
            },
    {
        proof {
            lemma_fits_by_offset(*self, capture_ts_ns, n);
        }
        let anchor: i64 = match self.anchor_ns {
            Some(a) => a,
            None => capture_ts_ns,
        };
        if anchor < 0 && capture_ts_ns > i64::MAX + anchor {
            return false;
        }
        if anchor > 0 && capture_ts_ns < i64::MIN + anchor {
            return false;
        }
        let start = self.start_index(capture_ts_ns, anchor);
        start <= u64::MAX - n
    }

    fn start_index(&self, capture_ts_ns: i64, anchor: i64) -> (r: u64)
        requires
            anchor == self.anchor_after(capture_ts_ns),
            i64::MIN <= capture_ts_ns - anchor <= i64::MAX,
        ensures
            r == self.start_for(capture_ts_ns),
    {
        let delta: i64 = capture_ts_ns - anchor;
        let slot: u64 = if delta > 0 {
            (delta as u64 + 31250) / NS_PER_SAMPLE
        } else {
            0
        };
        if slot > self.base_index {
            slot
        } else {
            self.base_index
        }
    }

    /// Place a frame of `n` output samples from `stream`, stamped
    /// `capture_ts_ns`. The first frame seen, empty or not, sets the anchor.
    /// An empty frame is not placed and changes nothing else. Otherwise the
    /// frame starts at
    /// [`MixTimeline::start_for`], the buffer grows to reach its end, and the
    /// stream's delivered index advances to its end; the other stream's is
    /// untouched.
    pub fn place(&mut self, stream: StreamId, capture_ts_ns: i64, n: u64) -> (r: Option<Placement>)
        requires
            n > 0 ==> old(self).fits(capture_ts_ns, n),
        ensures
            placed(*old(self), *final(self), stream, capture_ts_ns, n, r),
            old(self).anchor() matches Some(a) ==> final(self).anchor() == Some(a),
            old(self).anchor() is None ==> final(self).anchor() == Some(capture_ts_ns),
            n > 0 ==> (r matches Some(p) && final(self).anchor() matches Some(a) && {
                &&& p.start_index >= old(self).base()
                &&& p.start_index > old(self).base() ==> 62500 * p.start_index - 31250
                    <= capture_ts_ns - a
                &&& capture_ts_ns - a < 62500 * p.start_index + 31250
            }),
    {
        proof {
            if n > 0 {
                lemma_start_is_nearest_slot(*old(self), capture_ts_ns);
            }
        }
        proof {
            use_type_invariant(&*self);
        }
        let anchor: i64 = match self.anchor_ns {
            Some(a) => a,
            None => capture_ts_ns,
        };
        if n == 0 {
            *self = MixTimeline {
                anchor_ns: Some(anchor),
                base_index: self.base_index,
                buffered: self.buffered,
                filled_mic: self.filled_mic,
                filled_loopback: self.filled_loopback,
            };
            return None;
        }
        let start = self.start_index(capture_ts_ns, anchor);
        let end: u64 = start + n;
        let needed: u64 = end - self.base_index;
        let buffer_len: u64 = if self.buffered > needed {
            self.buffered
        } else {
            needed
        };
        let (filled_mic, filled_loopback) = match stream {
            StreamId::Mic => (
                if end > self.filled_mic {
                    end
                } else {
                    self.filled_mic
                },
                self.filled_loopback,
            ),
            StreamId::Loopback => (
                self.filled_mic,
                if end > self.filled_loopback {
                    end
                } else {
                    self.filled_loopback
                },
            ),
        };
        let base_index = self.base_index;
        *self = MixTimeline {
            anchor_ns: Some(anchor),
            base_index,
            buffered: buffer_len,
            filled_mic,
            filled_loopback,
        };
        Some(Placement { start_index: start, offset: start - base_index, buffer_len })
    }

    /// Emit the timeline up to `end_index`: returns how many samples leave the
    /// front of the buffer.
    fn drain_until(&mut self, end_index: u64) -> (r: u64)
        requires
            end_index <= old(self).furthest(),
        ensures
            drained(*old(self), *final(self), end_index as int, r),
    {
        proof {
            use_type_invariant(&*self);
        }
        if self.base_index >= end_index {
            return 0;
        }
        let count: u64 = end_index - self.base_index;
        *self = MixTimeline {
            anchor_ns: self.anchor_ns,
            base_index: end_index,
            buffered: self.buffered - count,
            filled_mic: self.filled_mic,
            filled_loopback: self.filled_loopback,
        };
        count
    }

    /// Emit what is safe to commit: everything older than the alignment
    /// window behind the furthest delivered index. Returns how many samples
    /// leave the front of the buffer; afterwards at most
    /// [`ALIGN_WINDOW_SAMPLES`] remain buffered.
    pub fn drain_ready(&mut self) -> (r: u64)
        ensures
            drained(*old(self), *final(self), ready_index(*old(self)), r),
            final(self).buffered() <= ALIGN_WINDOW_SAMPLES,
            final(self).base() == old(self).base() + r,
            r > 0 <==> old(self).base() + ALIGN_WINDOW_SAMPLES < old(self).furthest(),
            r > 0 ==> final(self).base() + ALIGN_WINDOW_SAMPLES == old(self).furthest(),
    {
        proof {
            use_type_invariant(&*self);
        }
        let furthest = self.max_filled();
        let ready: u64 = if furthest >= ALIGN_WINDOW_SAMPLES {
            furthest - ALIGN_WINDOW_SAMPLES
        } else {
            0
        };
        self.drain_until(ready)
    }

    /// Emit everything delivered. Returns how many samples leave the buffer;
    /// afterwards the buffer is empty and the base index has reached the
    /// furthest delivered index.
    pub fn flush(&mut self) -> (r: u64)
        ensures
            drained(*old(self), *final(self), old(self).furthest() as int, r),
            r == old(self).buffered(),
            final(self).buffered() == 0,
            final(self).base() >= old(self).furthest(),
    {
        proof {
            use_type_invariant(&*self);
        }
        let furthest = self.max_filled();
        self.drain_until(furthest)
    }
}

/// `s` extended to `len` entries with `silence`.
pub open spec fn padded<T>(s: Seq<T>, silence: T, len: int) -> Seq<T> {
    Seq::new(len as nat, |i: int| if i < s.len() { s[i] } else { silence })
}

/// The mix buffer: the timeline together with one running sum per slot of
/// its undrained part, in timeline order. Sums start as `silence` and each
/// placed sample is added into its slot with the caller's `mix`.
pub struct MixBuffer<T> {
    timeline: MixTimeline,
    sums: Vec<T>,
}

impl<T> MixBuffer<T> {
    /// The timeline the buffer follows.
    pub closed spec fn spec_timeline(&self) -> MixTimeline {
        self.timeline
    }

    /// The running sums, from the timeline's base index on.
    pub closed spec fn spec_sums(&self) -> Seq<T> {
        self.sums@
    }

    #[verifier::type_invariant]
    spec fn inv(&self) -> bool {
        self.sums@.len() == self.timeline.buffered()
    }
}

impl<T: Copy> MixBuffer<T> {
    /// An empty buffer on an empty timeline.
    pub fn new() -> (b: MixBuffer<T>)
        ensures
            b.spec_timeline().anchor() is None,
            b.spec_timeline().base() == 0,
            b.spec_timeline().buffered() == 0,
            b.spec_timeline().filled(0) == 0,
            b.spec_timeline().filled(1) == 0,
            b.spec_sums().len() == 0,
    {
        MixBuffer { timeline: MixTimeline::new(), sums: Vec::new() }
    }

    /// The timeline the buffer follows.
    pub fn timeline(&self) -> (t: &MixTimeline)
        ensures
            *t == self.spec_timeline(),
            self.spec_sums().len() == t.buffered(),
    {
        proof {
            use_type_invariant(self);
        }
        &self.timeline
    }

    /// A frame of `n` samples stamped `ts` can be added: the timeline can
    /// place it and the sums it needs can be held in memory.
    pub open spec fn frame_fits_spec(&self, ts: i64, n: usize) -> bool {
        &&& self.spec_timeline().fits(ts, n as u64)
        &&& self.spec_timeline().start_for(ts) + n - self.spec_timeline().base() <= usize::MAX
    }

    /// Whether a frame of `n` samples stamped `capture_ts_ns` can be added.
    pub fn frame_fits(&self, capture_ts_ns: i64, n: usize) -> (r: bool)
        ensures
            r == self.frame_fits_spec(capture_ts_ns, n),
            self.spec_timeline().anchor() matches Some(a) ==> ((i64::MIN <= capture_ts_ns - a
                && capture_ts_ns <= a) ==> (r <==> self.spec_timeline().base() + n <= u64::MAX)),
    {
        proof {
            lemma_fits_by_offset(self.spec_timeline(), capture_ts_ns, n as u64);
        }
        if !self.timeline.placement_fits(capture_ts_ns, n as u64) {
            return false;
        }
        let anchor: i64 = match self.timeline.anchor_ns {
            Some(a) => a,
            None => capture_ts_ns,
        };
        let start = self.timeline.start_index(capture_ts_ns, anchor);
        start - self.timeline.base_index <= (usize::MAX - n) as u64
    }

    /// Add a frame from `stream`, stamped `capture_ts_ns`: the timeline
    /// places it, the sums grow with `silence` to the new buffer length, and
    /// sample `k` is added into slot `offset + k` with `mix`; every other
    /// slot keeps its sum.
    pub fn add_frame<F: Fn(T, T) -> T>(
        &mut self,
        stream: StreamId,
        capture_ts_ns: i64,
        samples: &[T],
        silence: T,
        mix: F,
    ) -> (r: Option<Placement>)
        requires
            samples.len() > 0 ==> old(self).frame_fits_spec(capture_ts_ns, samples.len()),
            forall|a: T, b: T| #[trigger] mix.requires((a, b)),
        ensures
            placed(
                old(self).spec_timeline(),
                final(self).spec_timeline(),
                stream,
                capture_ts_ns,
                samples.len() as u64,
                r,
            ),
            final(self).spec_sums().len() == final(self).spec_timeline().buffered(),
            r is None ==> final(self).spec_sums() == old(self).spec_sums(),
            old(self).spec_timeline().anchor() matches Some(a) ==> final(self).spec_timeline().anchor()
                == Some(a),
            old(self).spec_timeline().anchor() is None ==> final(self).spec_timeline().anchor()
                == Some(capture_ts_ns),
            samples.len() > 0 ==> (r matches Some(p) && final(self).spec_timeline().anchor() matches Some(
                a,
            ) && {
                &&& p.start_index >= old(self).spec_timeline().base()
                &&& p.start_index > old(self).spec_timeline().base() ==> 62500 * p.start_index
                    - 31250 <= capture_ts_ns - a
                &&& capture_ts_ns - a < 62500 * p.start_index + 31250
            }),
            r matches Some(p) ==> forall|i: int|
                0 <= i < p.buffer_len ==> {
                    let base = padded(old(self).spec_sums(), silence, p.buffer_len as int);
                    if p.offset <= i < p.offset + samples.len() {
                        mix.ensures(
                            (base[i], samples@[i - p.offset]),
                            #[trigger] final(self).spec_sums()[i],
                        )
                    } else {
                        final(self).spec_sums()[i] == base[i]
                    }
                },
    {
        proof {
            use_type_invariant(&*self);
        }
        let current: usize = self.sums.len();
        let mut timeline = self.timeline;
        let r = timeline.place(stream, capture_ts_ns, samples.len() as u64);
        match r {
            None => {
                self.timeline = timeline;
                r
            },
            Some(p) => {
                let ghost base = padded(self.sums@, silence, p.buffer_len as int);
                assert(p.buffer_len <= usize::MAX);
                let len = p.buffer_len as usize;
                let off = p.offset as usize;
                let n = samples.len();
                let mut sums: Vec<T> = Vec::new();
                let mut i: usize = 0;
                while i < len
                    invariant
                        i <= len,
                        len == p.buffer_len,
                        off == p.offset,
                        n == samples.len(),
                        off + n <= len,
                        self.sums@.len() <= len,
                        base == padded(self.sums@, silence, len as int),
                        forall|a: T, b: T| #[trigger] mix.requires((a, b)),
                        sums@.len() == i,
                        forall|j: int|
                            0 <= j < i ==> if off <= j < off + n {
                                mix.ensures((base[j], samples@[j - off]), #[trigger] sums@[j])
                            } else {
                                sums@[j] == base[j]
                            },
                    decreases len - i,
                {
                    let prior: T = if i < self.sums.len() {
                        self.sums[i]
                    } else {
                        silence
                    };
                    if off <= i && i < off + n {
                        let v = mix(prior, samples[i - off]);
                        sums.push(v);
                    } else {
                        sums.push(prior);
                    }
                    i += 1;
                }
                *self = MixBuffer { timeline, sums };
                r
            },
        }
    }
    /// Emit the sums that are safe to commit (older than the alignment
    /// window), in timeline order; at most [`ALIGN_WINDOW_SAMPLES`] remain.
    pub fn drain_ready(&mut self) -> (out: Vec<T>)
        ensures
            drained(
                old(self).spec_timeline(),
                final(self).spec_timeline(),
                ready_index(old(self).spec_timeline()),
                out@.len() as u64,
            ),
            final(self).spec_timeline().buffered() <= ALIGN_WINDOW_SAMPLES,
            out@ == old(self).spec_sums().take(out@.len() as int),
            final(self).spec_sums() == old(self).spec_sums().skip(out@.len() as int),
            final(self).spec_timeline().base() == old(self).spec_timeline().base() + out@.len(),
            out@.len() > 0 <==> old(self).spec_timeline().base() + ALIGN_WINDOW_SAMPLES < old(
                self,
            ).spec_timeline().furthest(),
            out@.len() > 0 ==> final(self).spec_timeline().base() + ALIGN_WINDOW_SAMPLES == old(
                self,
            ).spec_timeline().furthest(),
    {
        proof {
            use_type_invariant(&*self);
        }
        let mut timeline = self.timeline;
        let count = timeline.drain_ready();
        let current: usize = self.sums.len();
        assert(count <= current);
        let (out, rest) = split_front(&self.sums, count as usize);
        *self = MixBuffer { timeline, sums: rest };
        out
    }

    /// Emit every remaining sum, in timeline order; the buffer is left empty.
    pub fn flush(&mut self) -> (out: Vec<T>)
        ensures
            drained(
                old(self).spec_timeline(),
                final(self).spec_timeline(),
                old(self).spec_timeline().furthest() as int,
                out@.len() as u64,
            ),
            out@ == old(self).spec_sums(),
            final(self).spec_sums().len() == 0,
    {
        proof {
            use_type_invariant(&*self);
        }
        let mut timeline = self.timeline;
        let count = timeline.flush();
        let current: usize = self.sums.len();
        assert(count == current);
        let (out, rest) = split_front(&self.sums, count as usize);
        assert(self.sums@.take(current as int) =~= self.sums@);
        *self = MixBuffer { timeline, sums: rest };
        out
    }
}

/// The first `n` entries of `v` and the rest, as two new vectors.
fn split_front<T: Copy>(v: &Vec<T>, n: usize) -> (r: (Vec<T>, Vec<T>))
    requires
        n <= v@.len(),
    ensures
        r.0@ == v@.take(n as int),
        r.1@ == v@.skip(n as int),
{
    let mut front: Vec<T> = Vec::new();
    let mut back: Vec<T> = Vec::new();
    let mut i: usize = 0;
    while i < v.len()
        invariant
            i <= v@.len(),
            n <= v@.len(),
            front@ == v@.take(if i < n { i as int } else { n as int }),
            back@ == if i <= n { Seq::<T>::empty() } else { v@.subrange(n as int, i as int) },
        decreases v@.len() - i,
    {
        if i < n {
            front.push(v[i]);
            assert(v@.take(i + 1) =~= v@.take(i as int).push(v@[i as int]));
        } else {
            back.push(v[i]);
            assert(v@.subrange(n as int, i + 1) =~= (if i <= n { Seq::<T>::empty() } else {
                v@.subrange(n as int, i as int)
            }).push(v@[i as int]));
        }
        i += 1;
    }
    assert(back@ =~= v@.skip(n as int));
    (front, back)
}

/// What placing a frame of `n` samples from `stream`, stamped `ts`, does to
/// a timeline: the first frame seen, empty or not, sets the anchor; an empty
/// frame is not placed and changes nothing else; otherwise the frame starts
/// at `start_for(ts)`, the buffer grows to reach its end, the stream's
/// delivered index advances to its end, and the other stream's is untouched.
pub open spec fn placed(
    before: MixTimeline,
    after: MixTimeline,
    stream: StreamId,
    ts: i64,
    n: u64,
    r: Option<Placement>,
) -> bool {
    &&& after.wf()
    &&& after.anchor() == Some(before.anchor_after(ts))
    &&& n == 0 ==> {
        &&& r is None
        &&& after.base() == before.base()
        &&& after.buffered() == before.buffered()
        &&& after.filled(0) == before.filled(0)
        &&& after.filled(1) == before.filled(1)
    }
    &&& n > 0 ==> (r matches Some(p) && {
        let si = spec_stream_index(stream);
        let end = p.start_index + n;
        &&& p.start_index == before.start_for(ts)
        &&& p.offset == p.start_index - before.base()
        &&& p.buffer_len == max_int(before.buffered() as int, end - before.base())
        &&& after.base() == before.base()
        &&& after.buffered() == p.buffer_len
        &&& after.filled(si) == max_int(before.filled(si) as int, end)
        &&& after.filled(1 - si) == before.filled(1 - si)
    })
}

/// The index up to which a timeline may be emitted while keeping the
/// alignment window: the furthest delivered index less the window, or 0.
pub open spec fn ready_index(t: MixTimeline) -> int {
    if t.furthest() >= ALIGN_WINDOW_SAMPLES {
        t.furthest() - ALIGN_WINDOW_SAMPLES
    } else {
        0
    }
}

/// What emitting the timeline up to `end` does: `r` samples, the part of
/// `[base, end)` not yet emitted, leave the front of the buffer (never more
/// than it holds), and nothing else changes.
pub open spec fn drained(before: MixTimeline, after: MixTimeline, end: int, r: u64) -> bool {
    &&& after.wf()
    &&& r == if before.base() < end {
        end - before.base()
    } else {
        0
    }
    &&& r <= before.buffered()
    &&& after.base() == before.base() + r
    &&& after.buffered() == before.buffered() - r
    &&& after.anchor() == before.anchor()
    &&& after.filled(0) == before.filled(0)
    &&& after.filled(1) == before.filled(1)
}

// ---------------------------------------------------------------------------
// Laws
// ---------------------------------------------------------------------------

/// A frame lands at the slot nearest its timestamp: its start index `s` is
/// never before the base index; unless it was clamped to the base, the
/// frame's offset from the anchor is within half a sample of `s * 62 500 ns`
/// (halves rounding up); and a clamped frame's own nearest slot is at or
/// before the base.
pub proof fn lemma_start_is_nearest_slot(t: MixTimeline, ts: i64)
    ensures
        ({
            let d = ts - t.anchor_after(ts);
            let s = t.start_for(ts);
            &&& s >= t.base()
            &&& s > t.base() ==> 62500 * s - 31250 <= d
            &&& d < 62500 * s + 31250
        }),
{
    let d = ts - t.anchor_after(ts);
    if d > 0 {
        let k = (d + 31250) / 62500;
        assert(62500 * k <= d + 31250 < 62500 * k + 62500) by (nonlinear_arith)
            requires
                k == (d + 31250) / 62500,
                d > 0,
        ;
    }
}

/// What `fits` admits, stated by the frame's offset from the anchor: the
/// offset must be representable; a frame stamped at or before the anchor
/// starts at the base index and fits whenever its end does; a later frame
/// fits whenever even a slot one past its offset in whole samples leaves
/// room for its end.
pub proof fn lemma_fits_by_offset(t: MixTimeline, ts: i64, n: u64)
    ensures
        t.anchor() is None ==> (t.fits(ts, n) <==> t.base() + n <= u64::MAX),
        t.anchor() matches Some(a) ==> {
            &&& (ts - a < i64::MIN || ts - a > i64::MAX) ==> !t.fits(ts, n)
            &&& (i64::MIN <= ts - a && ts <= a) ==> (t.fits(ts, n) <==> t.base() + n <= u64::MAX)
            &&& (a < ts && ts - a <= i64::MAX && t.base() + n <= u64::MAX && (ts - a) / 62500 + 1
                + n <= u64::MAX) ==> t.fits(ts, n)
        },
{
    if let Some(a) = t.anchor() {
        if a < ts {
            let d = ts - a;
            assert((d + 31250) / 62500 <= d / 62500 + 1) by (nonlinear_arith)
                requires
                    d > 0,
            ;
        }
    }
}

/// Once a timeline has an anchor, placing any frame, empty or not, leaves it
/// unchanged; the first frame seen sets it to its own timestamp.
pub proof fn lemma_anchor_never_moves(
    before: MixTimeline,
    after: MixTimeline,
    stream: StreamId,
    ts: i64,
    n: u64,
    r: Option<Placement>,
)
    requires
        placed(before, after, stream, ts, n, r),
    ensures
        before.anchor() matches Some(a) ==> after.anchor() == Some(a),
        before.anchor() is None ==> after.anchor() == Some(ts),
{
}

/// Draining holds back the alignment window: it emits something exactly
/// when the base index is more than a window behind the furthest delivered
/// index, and then it stops exactly one window short of it.
pub proof fn lemma_drain_holds_back_window(before: MixTimeline, after: MixTimeline, r: u64)
    requires
        drained(before, after, ready_index(before), r),
    ensures
        after.base() == before.base() + r,
        r > 0 <==> before.base() + ALIGN_WINDOW_SAMPLES < before.furthest(),
        r > 0 ==> after.base() + ALIGN_WINDOW_SAMPLES == before.furthest(),
{
}

impl Default for MixTimeline {
    fn default() -> (t: MixTimeline)
        ensures
            t.anchor() is None,
            t.base() == 0,
            t.buffered() == 0,
            t.filled(0) == 0,
            t.filled(1) == 0,
    {
        MixTimeline::new()
    }
}

} // verus!
