//! The sample tap between playback and the visualizer: a fixed ring of the
//! most recent interleaved samples, with the stream format and a running
//! sample count that gives the playback position.
use vstd::prelude::*;

verus! {

/// How many interleaved samples the tap keeps: enough for the largest FFT
/// window (16384 frames) in stereo.
pub const TAP_CAPACITY: usize = 32768;

/// The most recent samples pushed through the tap, in a ring.
pub struct SampleRing<T> {
    data: Vec<T>,
    write: usize,
    filled: usize,
    samples_consumed: u64,
    channels: u16,
    sample_rate: u32,
    base_offset_ms: u64,
    window: Ghost<Seq<T>>,
}

/// Where sample `k` of the window lies in the ring.
pub open spec fn slot(write: int, filled: int, k: int) -> int {
    (write + TAP_CAPACITY - filled + k) % (TAP_CAPACITY as int)
}

/// The window after `s` was pushed: one more sample, the oldest dropped
/// once the ring is full.
pub open spec fn pushed<T>(w: Seq<T>, s: T) -> Seq<T> {
    if w.len() < TAP_CAPACITY {
        w.push(s)
    } else {
        w.drop_first().push(s)
    }
}

/// The window after `ss` were pushed one by one.
pub open spec fn pushed_all<T>(w: Seq<T>, ss: Seq<T>) -> Seq<T>
    decreases ss.len(),
{
    if ss.len() == 0 {
        w
    } else {
        pushed(pushed_all(w, ss.drop_last()), ss.last())
    }
}

/// The most recent stereo frames of the window, oldest first, padded with
/// `zero` pairs to `n` entries: as many whole frames as the window holds
/// among its last `n * channels` samples; a mono frame is doubled, a frame
/// of more channels keeps its first two.
pub open spec fn stereo_spec<T>(w: Seq<T>, channels: nat, n: nat, zero: T) -> Seq<(T, T)> {
    let needed = n * channels;
    let available = if w.len() < needed { w.len() } else { needed };
    let start = w.len() - available;
    let frames = available / channels;
    Seq::new(
        n,
        |f: int|
            if f < frames {
                let i = start + f * channels;
                (w[i], if channels == 1 { w[i] } else { w[i + 1] })
            } else {
                (zero, zero)
            },
    )
}

/// How many whole frames [`stereo_spec`] takes from the window.
pub open spec fn stereo_frames(len: nat, channels: nat, n: nat) -> nat {
    let needed = n * channels;
    let available = if len < needed { len } else { needed };
    available / channels
}

impl<T: Copy> SampleRing<T> {
    /// The samples held, oldest first (at most [`TAP_CAPACITY`]).
    pub closed spec fn window(&self) -> Seq<T> {
        self.window@
    }

    pub closed spec fn consumed(&self) -> u64 {
        self.samples_consumed
    }

    pub closed spec fn channels_spec(&self) -> u16 {
        self.channels
    }

    pub closed spec fn rate_spec(&self) -> u32 {
        self.sample_rate
    }

    pub closed spec fn base_ms(&self) -> u64 {
        self.base_offset_ms
    }

    pub closed spec fn wf(&self) -> bool {
        &&& self.data@.len() == TAP_CAPACITY
        &&& self.write < TAP_CAPACITY
        &&& self.filled <= TAP_CAPACITY
        &&& self.window@.len() == self.filled
        &&& self.channels >= 1
        &&& self.sample_rate >= 1
        &&& forall|k: int|
            0 <= k < self.filled ==> #[trigger] self.data@[slot(self.write as int, self.filled as int, k)]
                == self.window@[k]
    }

    /// An empty tap (stereo, 44.1 kHz), its ring filled with `zero`.
    pub fn new(zero: T) -> (r: Self)
        ensures
            r.wf(),
            r.window() == Seq::<T>::empty(),
            r.consumed() == 0,
            r.channels_spec() == 2,
            r.rate_spec() == 44100,
            r.base_ms() == 0,
    {
        let mut data: Vec<T> = Vec::new();
        let mut i: usize = 0;
        while i < TAP_CAPACITY
            invariant
                i <= TAP_CAPACITY,
                data@.len() == i,
            decreases TAP_CAPACITY - i,
        {
            data.push(zero);
            i += 1;
        }
        SampleRing {
            data,
            write: 0,
            filled: 0,
            samples_consumed: 0,
            channels: 2,
            sample_rate: 44100,
            base_offset_ms: 0,
            window: Ghost(Seq::empty()),
        }
    }

    /// Takes one interleaved sample.
    pub fn push(&mut self, sample: T)
        requires
            old(self).wf(),
        ensures
            final(self).wf(),
            final(self).window() == pushed(old(self).window(), sample),
            final(self).consumed() == vstd::wrapping::u64_specs::wrapping_add(old(self).consumed(), 1),
            final(self).channels_spec() == old(self).channels_spec(),
            final(self).rate_spec() == old(self).rate_spec(),
            final(self).base_ms() == old(self).base_ms(),
    {
        let ghost w = self.window@;
        let ghost old_data = self.data@;
        let ghost wr = self.write as int;
        let ghost fl = self.filled as int;
        let idx = self.write;
        self.data.set(idx, sample);
        self.write = (self.write + 1) % TAP_CAPACITY;
        if self.filled < TAP_CAPACITY {
            self.filled = self.filled + 1;
            self.window = Ghost(w.push(sample));
            assert forall|k: int| 0 <= k < self.filled implies #[trigger] self.data@[slot(
                self.write as int,
                self.filled as int,
                k,
            )] == self.window@[k] by {
                assert(slot(self.write as int, self.filled as int, k) == slot(wr, fl, k));
                if k < fl {
                    assert(slot(wr, fl, k) != wr);
                    assert(self.data@[slot(wr, fl, k)] == old_data[slot(wr, fl, k)]);
                } else {
                    assert(slot(wr, fl, k) == wr);
                }
            }
        } else {
            self.window = Ghost(w.drop_first().push(sample));
            assert forall|k: int| 0 <= k < self.filled implies #[trigger] self.data@[slot(
                self.write as int,
                self.filled as int,
                k,
            )] == self.window@[k] by {
                if k < fl - 1 {
                    assert(slot(self.write as int, self.filled as int, k) == slot(wr, fl, k + 1));
                    assert(slot(wr, fl, k + 1) != wr);
                    assert(self.data@[slot(wr, fl, k + 1)] == old_data[slot(wr, fl, k + 1)]);
                } else {
                    assert(slot(self.write as int, self.filled as int, k) == wr);
                }
            }
        }
        self.samples_consumed = self.samples_consumed.wrapping_add(1);
    }

    /// Takes a block of interleaved samples, in order.
    pub fn push_slice(&mut self, samples: &[T])
        requires
            old(self).wf(),
        ensures
            final(self).wf(),
            final(self).window() == pushed_all(old(self).window(), samples@),
            final(self).channels_spec() == old(self).channels_spec(),
            final(self).rate_spec() == old(self).rate_spec(),
            final(self).base_ms() == old(self).base_ms(),
    {
        let ghost w0 = self.window();
        let mut i: usize = 0;
        while i < samples.len()
            invariant
                i <= samples@.len(),
                self.wf(),
                self.window() == pushed_all(w0, samples@.take(i as int)),
                self.channels_spec() == old(self).channels_spec(),
                self.rate_spec() == old(self).rate_spec(),
                self.base_ms() == old(self).base_ms(),
            decreases samples.len() - i,
        {
            assert(samples@.take(i + 1).drop_last() == samples@.take(i as int));
            assert(samples@.take(i + 1).last() == samples@[i as int]);
            self.push(samples[i]);
            i += 1;
        }
        assert(samples@.take(samples@.len() as int) == samples@);
    }

    /// Sets the stream format (zero counts as one).
    pub fn set_format(&mut self, channels: u16, sample_rate: u32)
        requires
            old(self).wf(),
        ensures
            final(self).wf(),
            final(self).window() == old(self).window(),
            final(self).consumed() == old(self).consumed(),
            final(self).channels_spec() == if channels == 0 { 1 } else { channels },
            final(self).rate_spec() == if sample_rate == 0 { 1 } else { sample_rate },
            final(self).base_ms() == old(self).base_ms(),
    {
        self.channels = if channels == 0 {
            1
        } else {
            channels
        };
        self.sample_rate = if sample_rate == 0 {
            1
        } else {
            sample_rate
        };
    }

    /// Empties the tap (the ring is refilled with `zero`) and restarts the
    /// count and the base offset.
    pub fn reset(&mut self, zero: T)
        requires
            old(self).wf(),
        ensures
            final(self).wf(),
            final(self).window() == Seq::<T>::empty(),
            final(self).consumed() == 0,
            final(self).base_ms() == 0,
            final(self).channels_spec() == old(self).channels_spec(),
            final(self).rate_spec() == old(self).rate_spec(),
    {
        let mut i: usize = 0;
        while i < TAP_CAPACITY
            invariant
                i <= TAP_CAPACITY,
                self.data@.len() == TAP_CAPACITY,
                self.channels == old(self).channels,
                self.sample_rate == old(self).sample_rate,
                self.channels >= 1,
                self.sample_rate >= 1,
                self.write < TAP_CAPACITY,
            decreases TAP_CAPACITY - i,
        {
            self.data.set(i, zero);
            i += 1;
        }
        self.write = 0;
        self.filled = 0;
        self.samples_consumed = 0;
        self.base_offset_ms = 0;
        self.window = Ghost(Seq::empty());
    }

    /// Where the stream's sample count started, in milliseconds.
    pub fn set_base_offset(&mut self, offset_ms: u64)
        requires
            old(self).wf(),
        ensures
            final(self).wf(),
            final(self).window() == old(self).window(),
            final(self).consumed() == old(self).consumed(),
            final(self).base_ms() == offset_ms,
            final(self).channels_spec() == old(self).channels_spec(),
            final(self).rate_spec() == old(self).rate_spec(),
    {
        self.base_offset_ms = offset_ms;
    }

    /// The playback position in milliseconds: the base offset plus the
    /// whole frames taken, at the sample rate (saturating).
    pub fn position_ms(&self) -> (r: u64)
        requires
            self.wf(),
        ensures
            r == ({
                let frames: int = (self.consumed() as int) / (self.channels_spec() as int);
                let v: int = self.base_ms() + frames * 1000 / (self.rate_spec() as int);
                if v > u64::MAX { u64::MAX as int } else { v }
            }),
    {
        let frames: u128 = (self.samples_consumed / self.channels as u64) as u128;
        let ms: u128 = frames * 1000 / self.sample_rate as u128;
        let v: u128 = self.base_offset_ms as u128 + ms;
        if v > u64::MAX as u128 {
            u64::MAX
        } else {
            v as u64
        }
    }

    pub fn sample_rate(&self) -> (r: u32)
        ensures
            r == self.rate_spec(),
    {
        self.sample_rate
    }

    pub fn channels(&self) -> (r: u16)
        ensures
            r == self.channels_spec(),
    {
        self.channels
    }

    pub fn samples_consumed(&self) -> (r: u64)
        ensures
            r == self.consumed(),
    {
        self.samples_consumed
    }

    /// Fills `out` with the most recent stereo frames (see [`stereo_spec`])
    /// and gives how many are real frames.
    pub fn latest_stereo(&self, out: &mut Vec<(T, T)>, zero: T) -> (frames: usize)
        requires
            self.wf(),
        ensures
            final(out)@.len() == old(out)@.len(),
            final(out)@ == stereo_spec(
                self.window(),
                self.channels_spec() as nat,
                old(out)@.len(),
                zero,
            ),
            frames == stereo_frames(self.window().len(), self.channels_spec() as nat, old(out)@.len()),
    {
        let ghost w = self.window();
        let ch = self.channels as usize;
        let n = out.len();
        assert((n as u128) * (ch as u128) <= 0xffff_ffff_ffff_ffffu128 * 0xffffu128) by (nonlinear_arith)
            requires
                n <= 0xffff_ffff_ffff_ffffu128,
                ch <= 0xffffu128,
        ;
        let needed: u128 = n as u128 * ch as u128;
        let available: usize = if (self.filled as u128) < needed {
            self.filled
        } else {
            needed as usize
        };
        let frames = available / ch;
        let start = self.filled - available;
        proof {
            assert(frames * ch <= available) by (nonlinear_arith)
                requires
                    frames == available / ch,
                    ch >= 1,
            ;
            assert(frames <= n) by (nonlinear_arith)
                requires
                    frames == available / ch,
                    available <= n * ch,
                    ch >= 1,
            ;
        }
        let ghost want = stereo_spec(w, ch as nat, n as nat, zero);
        let mut f: usize = 0;
        let mut j: usize = 0;
        while f < n
            invariant
                self.wf(),
                w == self.window(),
                ch == self.channels as usize,
                ch >= 1,
                n == out@.len(),
                frames <= n,
                needed == (n as int) * (ch as int),
                available as int == if (self.filled as int) < needed { self.filled as int } else {
                    needed as int
                },
                frames == available / ch,
                frames * ch <= available,
                available <= self.filled,
                start == self.filled - available,
                frames == stereo_frames(w.len(), ch as nat, n as nat),
                want == stereo_spec(w, ch as nat, n as nat, zero),
                f <= n,
                f <= frames ==> j == f * ch,
                forall|k: int| 0 <= k < f ==> #[trigger] out@[k] == want[k],
            decreases n - f,
        {
            if f < frames {
                proof {
                    assert((f + 1) * ch <= frames * ch) by (nonlinear_arith)
                        requires
                            f + 1 <= frames,
                    ;
                    assert((f + 1) * ch == f * ch + ch) by (nonlinear_arith);
                }
                let i = start + j;
                assert(i + ch <= self.filled);
                let si = (self.write + TAP_CAPACITY - self.filled + i) % TAP_CAPACITY;
                assert(si == slot(self.write as int, self.filled as int, i as int));
                assert(self.data@[slot(self.write as int, self.filled as int, i as int)] == w[i as int]);
                let l = self.data[si];
                let r = if ch == 1 {
                    l
                } else {
                    let si2 = (self.write + TAP_CAPACITY - self.filled + i + 1) % TAP_CAPACITY;
                    assert(si2 == slot(self.write as int, self.filled as int, i + 1));
                    assert(self.data@[slot(self.write as int, self.filled as int, i + 1)] == w[i + 1]);
                    self.data[si2]
                };
                proof {
                    let sn: nat = (n as nat) * (ch as nat);
                    assert(sn == needed);
                    let sa: nat = if w.len() < sn { w.len() } else { sn };
                    assert(sa == available);
                    assert(w.len() - sa == start);
                    assert(sa / (ch as nat) == frames);
                    assert(j == f * ch);
                    assert(want[f as int] == (w[i as int], if ch == 1 { w[i as int] } else { w[i + 1] }));
                }
                assert((l, r) == want[f as int]);
                out.set(f, (l, r));
                j = j + ch;
            } else {
                out.set(f, (zero, zero));
            }
            f += 1;
        }
        assert(out@ =~= want);
        frames
    }
}

/// The window never holds more than the ring, and keeps the newest sample
/// last.
pub proof fn lemma_pushed_newest<T>(w: Seq<T>, s: T)
    requires
        w.len() <= TAP_CAPACITY,
    ensures
        pushed(w, s).len() <= TAP_CAPACITY,
        pushed(w, s).last() == s,
        pushed(w, s).len() == if w.len() < TAP_CAPACITY { w.len() + 1 } else { TAP_CAPACITY as nat },
{
}

} // verus!
