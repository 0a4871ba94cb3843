//! Recording health: is OBS keeping up while a game runs?
//!
//! OBS reports cumulative frame counters. The supervisor feeds one sample
//! per tick; the tracker keeps the per-tick deltas of the last ~30s so a
//! single hiccup does not raise a warning but sustained drops do. The
//! window sums returned here are what the lag percentages are taken of.

use vstd::prelude::*;

verus! {

/// Supervisor ticks every 3s: 10 samples = 30s.
pub const WINDOW: usize = 10;

/// One stats sample: OBS's cumulative frame counters.
#[derive(Clone, Copy, Debug, PartialEq, Eq, Structural)]
pub struct FrameCounters {
    pub render_skipped: u32,
    pub render_total: u32,
    pub output_skipped: u32,
    pub output_total: u32,
}

/// Frames over the window: (render skipped, render total, output skipped,
/// output total).
pub type FrameDeltas = (u64, u64, u64, u64);

/// Rolling history of frame counter deltas.
#[derive(Clone, Debug)]
pub struct FrameTracker {
    pub last: Option<FrameCounters>,
    /// Per-tick deltas, oldest first.
    pub window: Vec<FrameDeltas>,
}

/// How far a counter moved since the previous sample. Counters reset when
/// OBS or its outputs restart: a backwards step counts as a fresh start.
pub open spec fn spec_delta(now: u32, prev: u32) -> u64 {
    if now >= prev {
        (now - prev) as u64
    } else {
        0
    }
}

pub open spec fn spec_deltas(now: FrameCounters, prev: FrameCounters) -> FrameDeltas {
    (
        spec_delta(now.render_skipped, prev.render_skipped),
        spec_delta(now.render_total, prev.render_total),
        spec_delta(now.output_skipped, prev.output_skipped),
        spec_delta(now.output_total, prev.output_total),
    )
}

/// The last `WINDOW` entries of `w`.
pub open spec fn spec_last_window(w: Seq<FrameDeltas>) -> Seq<FrameDeltas> {
    if w.len() > WINDOW {
        w.skip(w.len() - WINDOW)
    } else {
        w
    }
}

/// Component-wise sum of the window.
pub open spec fn spec_sum(w: Seq<FrameDeltas>) -> (int, int, int, int)
    decreases w.len(),
{
    if w.len() == 0 {
        (0, 0, 0, 0)
    } else {
        let s = spec_sum(w.drop_last());
        let d = w.last();
        (s.0 + d.0, s.1 + d.1, s.2 + d.2, s.3 + d.3)
    }
}

pub open spec fn small(d: FrameDeltas) -> bool {
    d.0 <= u32::MAX && d.1 <= u32::MAX && d.2 <= u32::MAX && d.3 <= u32::MAX
}

proof fn lemma_sum_bounds(w: Seq<FrameDeltas>)
    requires
        forall|i: int| 0 <= i < w.len() ==> small(#[trigger] w[i]),
    ensures
        0 <= spec_sum(w).0 <= w.len() * u32::MAX,
        0 <= spec_sum(w).1 <= w.len() * u32::MAX,
        0 <= spec_sum(w).2 <= w.len() * u32::MAX,
        0 <= spec_sum(w).3 <= w.len() * u32::MAX,
    decreases w.len(),
{
    if w.len() > 0 {
        assert(small(w[w.len() - 1]));
        lemma_sum_bounds(w.drop_last());
    }
}

impl FrameTracker {
    /// The window never holds more than `WINDOW` deltas, each a 32-bit
    /// counter difference.
    pub open spec fn wf(&self) -> bool {
        &&& self.window@.len() <= WINDOW
        &&& forall|i: int| 0 <= i < self.window@.len() ==> small(#[trigger] self.window@[i])
    }

    /// The tracker holds what feeding it `samples` since a reset leaves:
    /// the last sample, and the deltas of the last (at most `WINDOW`)
    /// pairs of consecutive samples, oldest first.
    pub open spec fn has_seen(&self, samples: Seq<FrameCounters>) -> bool {
        &&& self.window@ == spec_last_window(history_deltas(samples))
        &&& self.last == last_sample(samples)
    }

    /// A tracker with no history.
    pub fn new() -> (r: Self)
        ensures
            r.wf(),
            r.last is None,
            r.window@.len() == 0,
            r.has_seen(Seq::empty()),
    {
        FrameTracker { last: None, window: Vec::new() }
    }

    /// Forget history (OBS disconnected or restarted).
    pub fn reset(&mut self)
        ensures
            final(self).wf(),
            final(self).last is None,
            final(self).window@.len() == 0,
            final(self).has_seen(Seq::empty()),
    {
        self.last = None;
        self.window = Vec::new();
        proof {
            assert(self.window@ =~= spec_last_window(history_deltas(Seq::empty())));
        }
    }

    /// Feed one stats sample and get the window's sums. The first sample
    /// after a reset only sets the baseline.
    pub fn record(&mut self, now: FrameCounters) -> (r: FrameDeltas)
        requires
            old(self).wf(),
        ensures
            final(self).wf(),
            final(self).last == Some(now),
            final(self).window@ == (match old(self).last {
                Some(prev) => spec_last_window(old(self).window@.push(spec_deltas(now, prev))),
                None => old(self).window@,
            }),
            (r.0 as int, r.1 as int, r.2 as int, r.3 as int) == spec_sum(final(self).window@),
            forall|samples: Seq<FrameCounters>|
                #[trigger] old(self).has_seen(samples) ==> final(self).has_seen(samples.push(now)),
    {
        let ghost before = *self;
        match self.last {
            Some(prev) => {
                let d = (
                    delta(now.render_skipped, prev.render_skipped),
                    delta(now.render_total, prev.render_total),
                    delta(now.output_skipped, prev.output_skipped),
                    delta(now.output_total, prev.output_total),
                );
                let ghost pushed = self.window@.push(d);
                self.window.push(d);
                if self.window.len() > WINDOW {
                    self.window.remove(0);
                    proof {
                        assert(self.window@ =~= pushed.skip(pushed.len() - WINDOW));
                    }
                }
            },
            None => {},
        }
        self.last = Some(now);
        proof {
            assert forall|samples: Seq<FrameCounters>| #[trigger]
                before.has_seen(samples) implies self.has_seen(samples.push(now)) by {
                lemma_window_is_recent_history(samples);
                lemma_window_is_recent_history(samples.push(now));
                lemma_record_extends_history(samples, before.window@, before.last, now);
                assert(last_sample(samples.push(now)) == Some(now));
            }
        }
        self.sums()
    }

    /// Component-wise sums of the window.
    pub fn sums(&self) -> (r: FrameDeltas)
        requires
            self.wf(),
        ensures
            (r.0 as int, r.1 as int, r.2 as int, r.3 as int) == spec_sum(self.window@),
    {
        let mut acc: FrameDeltas = (0, 0, 0, 0);
        let mut i: usize = 0;
        while i < self.window.len()
            invariant
                self.wf(),
                i <= self.window@.len(),
                (acc.0 as int, acc.1 as int, acc.2 as int, acc.3 as int) == spec_sum(
                    self.window@.take(i as int),
                ),
            decreases self.window.len() - i,
        {
            let w = self.window[i];
            proof {
                let t = self.window@.take(i as int + 1);
                assert(t.drop_last() =~= self.window@.take(i as int));
                assert forall|k: int| 0 <= k < t.len() implies small(#[trigger] t[k]) by {
                    assert(t[k] == self.window@[k]);
                }
                lemma_sum_bounds(t);
                assert(small(self.window@[i as int]));
            }
            acc = (acc.0 + w.0, acc.1 + w.1, acc.2 + w.2, acc.3 + w.3);
            i = i + 1;
        }
        proof {
            assert(self.window@.take(i as int) =~= self.window@);
        }
        acc
    }
}

/// The latest of the samples, if any.
pub open spec fn last_sample(samples: Seq<FrameCounters>) -> Option<FrameCounters> {
    if samples.len() == 0 {
        None
    } else {
        Some(samples.last())
    }
}

/// The deltas between consecutive samples, oldest first.
pub open spec fn history_deltas(samples: Seq<FrameCounters>) -> Seq<FrameDeltas>
    decreases samples.len(),
{
    if samples.len() <= 1 {
        Seq::empty()
    } else {
        history_deltas(samples.drop_last()).push(
            spec_deltas(samples.last(), samples[samples.len() - 2]),
        )
    }
}

/// The window `record` leaves after being fed `samples`, one call each,
/// starting from a fresh or reset tracker (the first sample only sets the
/// baseline).
pub open spec fn window_after(samples: Seq<FrameCounters>) -> Seq<FrameDeltas>
    decreases samples.len(),
{
    if samples.len() <= 1 {
        Seq::empty()
    } else {
        spec_last_window(
            window_after(samples.drop_last()).push(
                spec_deltas(samples.last(), samples[samples.len() - 2]),
            ),
        )
    }
}

proof fn lemma_last_window_push(h: Seq<FrameDeltas>, d: FrameDeltas)
    ensures
        spec_last_window(spec_last_window(h).push(d)) == spec_last_window(h.push(d)),
{
    if h.len() > WINDOW {
        assert(spec_last_window(spec_last_window(h).push(d)) =~= spec_last_window(h.push(d)));
    }
}

/// Over a whole history since a reset, the window holds the deltas of the
/// last (at most `WINDOW`) pairs of consecutive samples, oldest first, so
/// the sums `record` returns are taken over exactly those.
pub proof fn lemma_window_is_recent_history(samples: Seq<FrameCounters>)
    ensures
        window_after(samples) == spec_last_window(history_deltas(samples)),
    decreases samples.len(),
{
    if samples.len() > 1 {
        let init = samples.drop_last();
        lemma_window_is_recent_history(init);
        let d = spec_deltas(samples.last(), samples[samples.len() - 2]);
        lemma_last_window_push(history_deltas(init), d);
    }
}

/// Feeding a tracker that has seen `samples` (since a reset) one more
/// sample leaves the window `window_after` gives for the longer history.
pub proof fn lemma_record_extends_history(
    samples: Seq<FrameCounters>,
    window: Seq<FrameDeltas>,
    last: Option<FrameCounters>,
    now: FrameCounters,
)
    requires
        window == window_after(samples),
        last == last_sample(samples),
    ensures
        (match last {
            Some(prev) => spec_last_window(window.push(spec_deltas(now, prev))),
            None => window,
        }) == window_after(samples.push(now)),
{
    let s2 = samples.push(now);
    assert(s2.drop_last() =~= samples);
    if samples.len() > 0 {
        assert(s2[s2.len() - 2] == samples.last());
    }
}

fn delta(now: u32, prev: u32) -> (r: u64)
    ensures
        r == spec_delta(now, prev),
{
    if now >= prev {
        (now - prev) as u64
    } else {
        0
    }
}

} // verus!
