//! Streaming VAD adapter.
//!
//! Buffers audio into two-second analysis windows, runs the analyzer over
//! each window together with a holdback tail carried from the previous
//! one (so padding decisions have context), and queues the approved audio
//! for downstream consumption. Every analyzed window is exactly the
//! held-back tail followed by one drained segment; what one window does
//! to the queue and the tail is the exact contract of
//! [`VadStream::absorb_window`]. A window in which no speech survives the
//! policy is scaled whole by the non-speech gain — or, when that gain is
//! zero, dropped whole so the backend cannot hallucinate text out of
//! silence.
//!
//! The analyzer is modeled by its history: every window it analyzed, in
//! order, each with the speech ranges it reported.

use vstd::prelude::*;

use crate::error::Error;
use crate::opts::VadPolicy;
use crate::vad::{
    apply_non_speech_gain_in_place, ms_to_samples, spec_in_policy_ranges, spec_ms_to_samples,
    spec_policy_ranges, spec_qualifies, spec_scaled, to_speech_only_with_policy, PPM,
};

verus! {

/// Samples per analysis window: two seconds at 16 kHz.
pub const VAD_WINDOW_FRAMES: usize = 32000;

/// The VAD model: reports the speech time ranges of a window, each as
/// `(start, end)` in milliseconds from the window's own start.
///
/// An analyzer is modeled by its history: every window analyzed so far,
/// in order, each with the ranges it reported.
pub trait VadAnalyzer {
    /// The windows analyzed so far, each with the ranges reported.
    ///
    /// The default leaves the history unspecified; an implementation
    /// verified against the analysis contracts provides its own model.
    open spec fn spec_calls(&self) -> Seq<(Seq<i64>, Seq<(u64, u64)>)> {
        arbitrary()
    }

    /// Analyze one window of mono 16 kHz samples.
    fn speech_ranges_ms(&mut self, window: &Vec<i64>) -> (r: Result<Vec<(u64, u64)>, Error>)
        ensures
            r matches Ok(ranges) ==> final(self).spec_calls() == old(self).spec_calls().push(
                (window@, ranges@),
            ),
    ;
}

/// The non-speech gain actually applied: the policy's, capped at one.
pub open spec fn spec_effective_gain(policy: VadPolicy) -> int {
    if policy.non_speech_gain_ppm > PPM {
        PPM as int
    } else {
        policy.non_speech_gain_ppm as int
    }
}

/// Whether any reported range of a window survives the policy.
pub open spec fn spec_window_has_speech(
    w: Seq<i64>,
    ranges: Seq<(u64, u64)>,
    policy: VadPolicy,
) -> bool {
    exists|i: int| 0 <= i < ranges.len() && spec_qualifies(#[trigger] ranges[i], w.len() as int, policy)
}

/// The window after the policy is applied: speech samples untouched,
/// everything else scaled by the non-speech gain.
pub open spec fn spec_gained_window(
    w: Seq<i64>,
    ranges: Seq<(u64, u64)>,
    policy: VadPolicy,
) -> Seq<i64> {
    Seq::new(
        w.len(),
        |i: int|
            if spec_in_policy_ranges(spec_policy_ranges(ranges, w.len() as int, policy), i) {
                w[i]
            } else {
                spec_scaled(w[i] as int, spec_effective_gain(policy)) as i64
            },
    )
}

/// What one analyzed window does to the output queue and the holdback
/// tail: a speechless window is dropped whole when the gain is zero;
/// otherwise the gain-applied window is split, all but the last
/// `holdback` samples joining the queue and those last samples becoming
/// the new tail.
pub open spec fn spec_vad_step(
    q: Seq<i64>,
    w: Seq<i64>,
    ranges: Seq<(u64, u64)>,
    policy: VadPolicy,
    holdback: int,
) -> (Seq<i64>, Seq<i64>) {
    if !spec_window_has_speech(w, ranges, policy) && spec_effective_gain(policy) == 0 {
        (q, Seq::empty())
    } else {
        let g = spec_gained_window(w, ranges, policy);
        if holdback > 0 && g.len() > holdback {
            (q + g.take(g.len() - holdback), g.skip(g.len() - holdback))
        } else {
            (q + g, Seq::empty())
        }
    }
}

/// What the final flush pass does to the queue: the gain-applied window
/// is appended whole, unless it is speechless and the gain is zero, in
/// which case it is dropped.
pub open spec fn spec_vad_flush_step(
    q: Seq<i64>,
    w: Seq<i64>,
    ranges: Seq<(u64, u64)>,
    policy: VadPolicy,
) -> Seq<i64> {
    if !spec_window_has_speech(w, ranges, policy) && spec_effective_gain(policy) == 0 {
        q
    } else {
        q + spec_gained_window(w, ranges, policy)
    }
}

/// The streaming VAD state: buffered input, the holdback tail, and the
/// approved output queue with its consumption cursor.
pub struct VadStream {
    /// The policy applied to every window.
    pub policy: VadPolicy,
    /// Samples per analysis window.
    pub window_frames: usize,
    /// Samples carried from one window into the next for context.
    pub holdback_frames: usize,
    /// The holdback tail of the last approved window.
    pub pending_tail: Vec<i64>,
    /// Incoming samples not yet analyzed.
    pub in_buf: Vec<i64>,
    /// Approved samples awaiting downstream delivery.
    pub out_buf: Vec<i64>,
    /// How much of `out_buf` was already delivered.
    pub out_cursor: usize,
}

impl VadStream {
    /// The approved samples not yet delivered.
    pub open spec fn spec_out(&self) -> Seq<i64> {
        self.out_buf@.skip(self.out_cursor as int)
    }

    /// The stream's invariant: the cursor stays within the queue, the
    /// holdback tail never exceeds its bound, and windows are non-empty.
    pub open spec fn inv(&self) -> bool {
        &&& self.out_cursor <= self.out_buf@.len()
        &&& self.pending_tail@.len() <= self.holdback_frames
        &&& self.window_frames >= 1
    }

    /// The configuration fields, which no processing step changes.
    pub open spec fn spec_config(&self) -> (VadPolicy, usize, usize) {
        (self.policy, self.window_frames, self.holdback_frames)
    }

    /// Create a VAD stream for a policy. The holdback covers the largest
    /// of the policy's padding and merge distances.
    pub fn new(policy: VadPolicy) -> (r: VadStream)
        ensures
            r.inv(),
            r.policy == policy,
            r.window_frames == VAD_WINDOW_FRAMES,
            r.holdback_frames as int == spec_ms_to_samples(
                (if policy.pre_pad_ms >= policy.post_pad_ms && policy.pre_pad_ms
                    >= policy.gap_merge_ms {
                    policy.pre_pad_ms
                } else if policy.post_pad_ms >= policy.gap_merge_ms {
                    policy.post_pad_ms
                } else {
                    policy.gap_merge_ms
                }) as int,
            ),
            r.pending_tail@.len() == 0,
            r.in_buf@.len() == 0,
            r.spec_out() == Seq::<i64>::empty(),
    {
        let holdback_ms: u32 = if policy.pre_pad_ms >= policy.post_pad_ms && policy.pre_pad_ms
            >= policy.gap_merge_ms {
            policy.pre_pad_ms
        } else if policy.post_pad_ms >= policy.gap_merge_ms {
            policy.post_pad_ms
        } else {
            policy.gap_merge_ms
        };
        let r = VadStream {
            policy,
            window_frames: VAD_WINDOW_FRAMES,
            holdback_frames: ms_to_samples(holdback_ms as u64),
            pending_tail: Vec::new(),
            in_buf: Vec::new(),
            out_buf: Vec::new(),
            out_cursor: 0,
        };
        proof {
            assert(r.spec_out() =~= Seq::<i64>::empty());
        }
        r
    }

    /// The analysis window for one drained segment: the held-back tail
    /// followed by the segment.
    pub fn pending_window(&self, segment: &Vec<i64>) -> (w: Vec<i64>)
        ensures
            w@ == self.pending_tail@ + segment@,
    {
        let mut w: Vec<i64> = Vec::new();
        w.extend_from_slice(self.pending_tail.as_slice());
        w.extend_from_slice(segment.as_slice());
        proof {
            assert(w@ =~= self.pending_tail@ + segment@);
        }
        w
    }

    /// Absorb one analyzed window: apply the policy to the reported
    /// ranges and perform exactly the queue/tail split of
    /// [`spec_vad_step`].
    pub fn absorb_window(&mut self, window: Vec<i64>, ranges_ms: &Vec<(u64, u64)>)
        requires
            old(self).inv(),
        ensures
            final(self).inv(),
            final(self).spec_config() == old(self).spec_config(),
            final(self).in_buf == old(self).in_buf,
            (final(self).spec_out(), final(self).pending_tail@) == spec_vad_step(
                old(self).spec_out(),
                window@,
                ranges_ms@,
                old(self).policy,
                old(self).holdback_frames as int,
            ),
    {
        let mut window = window;
        let ghost w0 = window@;
        let found = to_speech_only_with_policy(&mut window, ranges_ms, self.policy);
        proof {
            assert(spec_window_has_speech(w0, ranges_ms@, self.policy) == found);
        }
        let gain_zero: bool = self.policy.non_speech_gain_ppm == 0;
        if !found && gain_zero {
            self.pending_tail.clear();
            proof {
                assert(spec_effective_gain(self.policy) == 0);
                assert(final(self).spec_out() =~= old(self).spec_out());
                assert(final(self).pending_tail@ =~= Seq::<i64>::empty());
            }
            return ;
        }
        if !found {
            let empty: Vec<(usize, usize)> = Vec::new();
            apply_non_speech_gain_in_place(&mut window, &empty, self.policy.non_speech_gain_ppm);
            proof {
                assert(forall|idx: int| !crate::vad::spec_in_ranges(empty@, idx));
                crate::vad::lemma_no_qualify_no_ranges(ranges_ms@, w0.len() as int, self.policy);
                assert(forall|idx: int|
                    !spec_in_policy_ranges(
                        spec_policy_ranges(ranges_ms@, w0.len() as int, self.policy),
                        idx,
                    ));
                assert(window@ =~= spec_gained_window(w0, ranges_ms@, self.policy));
            }
        } else {
            proof {
                assert(window@ =~= spec_gained_window(w0, ranges_ms@, self.policy));
            }
        }
        let ghost gained = window@;
        if self.holdback_frames > 0 && window.len() > self.holdback_frames {
            let split: usize = window.len() - self.holdback_frames;
            let tail = window.split_off(split);
            self.out_buf.append(&mut window);
            self.pending_tail = tail;
            proof {
                assert(final(self).spec_out() =~= old(self).spec_out() + gained.take(
                    gained.len() - old(self).holdback_frames,
                ));
                assert(final(self).pending_tail@ =~= gained.skip(
                    gained.len() - old(self).holdback_frames,
                ));
            }
        } else {
            self.out_buf.append(&mut window);
            self.pending_tail.clear();
            proof {
                assert(final(self).spec_out() =~= old(self).spec_out() + gained);
            }
        }
    }

    /// Analyze every full window buffered so far.
    fn process_ready_windows<A: VadAnalyzer>(&mut self, analyzer: &mut A) -> (r: Result<(), Error>)
        requires
            old(self).inv(),
        ensures
            final(self).inv(),
            final(self).spec_config() == old(self).spec_config(),
            final(self).spec_out().len() >= old(self).spec_out().len(),
            final(self).spec_out().subrange(0, old(self).spec_out().len() as int) == old(self).spec_out(),
            old(self).in_buf@.len() < old(self).window_frames ==> r is Ok && *final(self) == *old(
                self,
            ) && *final(analyzer) == *old(analyzer),
            r is Ok ==> ({
                let newcalls = final(analyzer).spec_calls().skip(
                    old(analyzer).spec_calls().len() as int,
                );
                &&& final(analyzer).spec_calls().len() >= old(analyzer).spec_calls().len()
                &&& final(analyzer).spec_calls().take(old(analyzer).spec_calls().len() as int)
                    == old(analyzer).spec_calls()
                &&& final(self).in_buf@.len() < final(self).window_frames
                &&& final(self).in_buf@ == old(self).in_buf@.skip(
                    newcalls.len() * (old(self).window_frames as int),
                )
                &&& newcalls.len() * (old(self).window_frames as int) <= old(self).in_buf@.len()
                &&& newcalls.len() == old(self).in_buf@.len() as int / (old(self).window_frames as int)
                &&& (newcalls.len() == 0 ==> *final(self) == *old(self) && *final(analyzer)
                    == *old(analyzer))
                &&& forall|i: int|
                    0 <= i < newcalls.len() ==> (#[trigger] newcalls[i]).0.skip(
                        newcalls[i].0.len() - (old(self).window_frames as int),
                    ) == old(self).in_buf@.subrange(
                        i * (old(self).window_frames as int),
                        (i + 1) * (old(self).window_frames as int),
                    )
            }),
    {
        let ghost base_calls = analyzer.spec_calls();
        let ghost input = self.in_buf@;
        let ghost wf = self.window_frames as int;
        while self.in_buf.len() >= self.window_frames
            invariant
                self.inv(),
                self.spec_config() == old(self).spec_config(),
                base_calls == old(analyzer).spec_calls(),
                input == old(self).in_buf@,
                wf == old(self).window_frames as int,
                analyzer.spec_calls().len() >= base_calls.len(),
                analyzer.spec_calls().take(base_calls.len() as int) == base_calls,
                analyzer.spec_calls().len() == base_calls.len() ==> *self == *old(self)
                    && *analyzer == *old(analyzer),
                self.spec_out().len() >= old(self).spec_out().len(),
                self.spec_out().subrange(0, old(self).spec_out().len() as int) == old(self).spec_out(),
                ({
                    let newcalls = analyzer.spec_calls().skip(base_calls.len() as int);
                    &&& self.in_buf@ == input.skip(newcalls.len() * wf)
                    &&& newcalls.len() * wf <= input.len()
                    &&& forall|i: int|
                        0 <= i < newcalls.len() ==> (#[trigger] newcalls[i]).0.skip(
                            newcalls[i].0.len() - wf,
                        ) == input.subrange(i * wf, (i + 1) * wf)
                }),
            decreases self.in_buf@.len(),
        {
            let ghost pre_calls = analyzer.spec_calls();
            let ghost n_before = pre_calls.skip(base_calls.len() as int).len() as int;
            proof {
                assert(self.in_buf@ == input.skip(n_before * wf));
                assert(input.len() - n_before * wf == self.in_buf@.len());
                assert((n_before + 1) * wf == n_before * wf + wf) by (nonlinear_arith);
            }
            let mut rest = self.in_buf.split_off(self.window_frames);
            core::mem::swap(&mut self.in_buf, &mut rest);
            let segment = rest;
            proof {
                assert(segment@ =~= input.subrange(n_before * wf, n_before * wf + wf));
                assert(self.in_buf@ =~= input.skip((n_before + 1) * wf));
            }
            let window = self.pending_window(&segment);
            let ranges = analyzer.speech_ranges_ms(&window)?;
            self.absorb_window(window, &ranges);
            proof {
                assert(analyzer.spec_calls() == pre_calls.push(
                    (old(self).pending_tail@ + segment@, ranges@),
                ) || analyzer.spec_calls().last().0.skip(
                    analyzer.spec_calls().last().0.len() - wf,
                ) =~= segment@);
                assert(analyzer.spec_calls().take(base_calls.len() as int) =~= base_calls);
                let newcalls = analyzer.spec_calls().skip(base_calls.len() as int);
                assert(newcalls.len() == n_before + 1);
                assert(newcalls[n_before as int].0.skip(newcalls[n_before as int].0.len() - wf)
                    =~= input.subrange(n_before * wf, (n_before + 1) * wf));
                assert(forall|i: int|
                    0 <= i < n_before ==> #[trigger] newcalls[i] == pre_calls.skip(
                        base_calls.len() as int,
                    )[i]);
                assert(self.spec_out().subrange(0, old(self).spec_out().len() as int) =~= old(self).spec_out());
            }
        }
        proof {
            let newcalls = analyzer.spec_calls().skip(base_calls.len() as int);
            let n = newcalls.len() as int;
            assert(input.len() - n * wf == self.in_buf@.len());
            vstd::arithmetic::div_mod::lemma_fundamental_div_mod_converse(
                input.len() as int,
                wf,
                n,
                self.in_buf@.len() as int,
            );
            if input.len() < wf {
                assert(n == 0) by (nonlinear_arith)
                    requires
                        n >= 0,
                        n * wf <= input.len(),
                        input.len() < wf,
                        wf >= 1,
                ;
            }
        }
        Ok(())
    }

    /// Push a chunk of audio samples into the VAD stream, analyzing every
    /// window that becomes full.
    ///
    /// Each analyzed window is the held-back tail followed by one drained
    /// segment of `window_frames` samples, in arrival order; each window
    /// changes the queue and the tail exactly as [`spec_vad_step`] says.
    pub fn push<A: VadAnalyzer>(&mut self, analyzer: &mut A, chunk: &Vec<i64>) -> (r: Result<
        (),
        Error,
    >)
        requires
            old(self).inv(),
        ensures
            final(self).inv(),
            final(self).spec_config() == old(self).spec_config(),
            final(self).spec_out().len() >= old(self).spec_out().len(),
            final(self).spec_out().subrange(0, old(self).spec_out().len() as int) == old(self).spec_out(),
            r is Ok ==> ({
                let combined = old(self).in_buf@ + chunk@;
                let newcalls = final(analyzer).spec_calls().skip(
                    old(analyzer).spec_calls().len() as int,
                );
                &&& final(analyzer).spec_calls().len() >= old(analyzer).spec_calls().len()
                &&& final(analyzer).spec_calls().take(old(analyzer).spec_calls().len() as int)
                    == old(analyzer).spec_calls()
                &&& final(self).in_buf@.len() < final(self).window_frames
                &&& final(self).in_buf@ == combined.skip(
                    newcalls.len() * (old(self).window_frames as int),
                )
                &&& newcalls.len() == combined.len() as int / (old(self).window_frames as int)
                &&& forall|i: int|
                    0 <= i < newcalls.len() ==> (#[trigger] newcalls[i]).0.skip(
                        newcalls[i].0.len() - (old(self).window_frames as int),
                    ) == combined.subrange(
                        i * (old(self).window_frames as int),
                        (i + 1) * (old(self).window_frames as int),
                    )
            }),
    {
        self.in_buf.extend_from_slice(chunk.as_slice());
        proof {
            assert(self.in_buf@ =~= old(self).in_buf@ + chunk@);
        }
        self.process_ready_windows(analyzer)
    }

    /// Flush remaining buffered audio through one final analysis pass.
    ///
    /// After every full window is processed, the held-back tail and the
    /// residual input form one last window; it is analyzed and appended
    /// whole to the queue exactly as [`spec_vad_flush_step`] says —
    /// dropped only when speechless under a zero gain. Afterwards nothing
    /// is buffered. When everything was already empty, nothing happens
    /// and the analyzer is not consulted.
    pub fn flush<A: VadAnalyzer>(&mut self, analyzer: &mut A) -> (r: Result<(), Error>)
        requires
            old(self).inv(),
        ensures
            final(self).inv(),
            final(self).spec_config() == old(self).spec_config(),
            r is Ok ==> final(analyzer).spec_calls().len() >= old(analyzer).spec_calls().len()
                && final(analyzer).spec_calls().take(old(analyzer).spec_calls().len() as int)
                == old(analyzer).spec_calls(),
            r is Ok ==> final(self).in_buf@.len() == 0 && final(self).pending_tail@.len() == 0,
            final(self).spec_out().len() >= old(self).spec_out().len(),
            final(self).spec_out().subrange(0, old(self).spec_out().len() as int) == old(self).spec_out(),
            old(self).in_buf@.len() == 0 && old(self).pending_tail@.len() == 0 ==> final(self).spec_out() == old(self).spec_out() && final(self).in_buf@ == old(self).in_buf@
                && final(self).pending_tail@ == old(self).pending_tail@ && *final(analyzer)
                == *old(analyzer),
            old(self).in_buf@.len() < old(self).window_frames && (old(self).in_buf@.len() > 0
                || old(self).pending_tail@.len() > 0) ==> ({
                let w = old(self).pending_tail@ + old(self).in_buf@;
                let newcalls = final(analyzer).spec_calls().skip(
                    old(analyzer).spec_calls().len() as int,
                );
                r is Ok ==> newcalls.len() == 1 && newcalls[0].0 == w && final(self).spec_out()
                    == spec_vad_flush_step(
                    old(self).spec_out(),
                    w,
                    newcalls[0].1,
                    old(self).policy,
                )
            }),
    {
        self.process_ready_windows(analyzer)?;
        let ghost mid_self = *self;
        let ghost mid_analyzer_calls = analyzer.spec_calls();
        proof {
            assert(analyzer.spec_calls().take(old(analyzer).spec_calls().len() as int)
                =~~= old(analyzer).spec_calls());
            if old(self).in_buf@.len() < old(self).window_frames {
                assert(mid_self == *old(self) && mid_analyzer_calls == old(analyzer).spec_calls());
            }
        }
        let mut leftover: Vec<i64> = Vec::new();
        core::mem::swap(&mut leftover, &mut self.pending_tail);
        leftover.append(&mut self.in_buf);
        proof {
            assert(leftover@ =~= mid_self.pending_tail@ + mid_self.in_buf@);
        }
        if leftover.len() == 0 {
            proof {
                if old(self).in_buf@.len() == 0 && old(self).pending_tail@.len() == 0 {
                    assert(self.pending_tail@ =~= old(self).pending_tail@);
                    assert(self.in_buf@ =~= old(self).in_buf@);
                }
                assert(self.spec_out().subrange(0, old(self).spec_out().len() as int) =~= old(
                    self,
                ).spec_out());
            }
            return Ok(());
        }
        let ghost w = leftover@;
        let ranges = analyzer.speech_ranges_ms(&leftover)?;
        proof {
            assert(analyzer.spec_calls() == mid_analyzer_calls.push((w, ranges@)));
            assert(analyzer.spec_calls().take(old(analyzer).spec_calls().len() as int)
                =~~= old(analyzer).spec_calls());
            if old(self).in_buf@.len() < old(self).window_frames {
                assert(w =~= old(self).pending_tail@ + old(self).in_buf@);
                let newcalls = analyzer.spec_calls().skip(old(analyzer).spec_calls().len() as int);
                assert(newcalls =~~= seq![(w, ranges@)]);
            }
        }
        let found = to_speech_only_with_policy(&mut leftover, &ranges, self.policy);
        proof {
            assert(spec_window_has_speech(w, ranges@, self.policy) == found);
        }
        let gain_zero: bool = self.policy.non_speech_gain_ppm == 0;
        if !found && gain_zero {
            proof {
                assert(spec_effective_gain(self.policy) == 0);
                assert(self.spec_out() =~= mid_self.spec_out());
                assert(self.spec_out().subrange(0, old(self).spec_out().len() as int) =~= old(
                    self,
                ).spec_out());
            }
            return Ok(());
        }
        if !found {
            let empty: Vec<(usize, usize)> = Vec::new();
            apply_non_speech_gain_in_place(&mut leftover, &empty, self.policy.non_speech_gain_ppm);
            proof {
                assert(forall|idx: int| !crate::vad::spec_in_ranges(empty@, idx));
                crate::vad::lemma_no_qualify_no_ranges(ranges@, w.len() as int, self.policy);
                assert(leftover@ =~= spec_gained_window(w, ranges@, self.policy));
            }
        } else {
            proof {
                assert(leftover@ =~= spec_gained_window(w, ranges@, self.policy));
            }
        }
        let ghost gained = leftover@;
        self.out_buf.append(&mut leftover);
        proof {
            assert(self.spec_out() =~= mid_self.spec_out() + gained);
            assert(self.spec_out().subrange(0, old(self).spec_out().len() as int) =~= old(
                self,
            ).spec_out());
        }
        Ok(())
    }

    /// The next `frames` approved samples, without consuming them;
    /// `None` until that many are available.
    pub fn peek_chunk(&self, frames: usize) -> (r: Option<Vec<i64>>)
        requires
            self.inv(),
        ensures
            r is Some <==> self.spec_out().len() >= frames,
            match r {
                Some(v) => v@ == self.spec_out().subrange(0, frames as int),
                None => true,
            },
    {
        let available: usize = self.out_buf.len() - self.out_cursor;
        if available >= frames {
            let mut v: Vec<i64> = Vec::new();
            let mut i: usize = 0;
            while i < frames
                invariant
                    self.out_cursor + frames <= self.out_buf@.len(),
                    self.out_buf@.len() <= usize::MAX,
                    0 <= i <= frames,
                    v@ =~= self.out_buf@.subrange(
                        self.out_cursor as int,
                        self.out_cursor as int + i,
                    ),
                decreases frames - i,
            {
                v.push(self.out_buf[self.out_cursor + i]);
                proof {
                    assert(self.out_buf@.subrange(
                        self.out_cursor as int,
                        self.out_cursor as int + i + 1,
                    ) =~= self.out_buf@.subrange(
                        self.out_cursor as int,
                        self.out_cursor as int + i,
                    ).push(self.out_buf@[self.out_cursor as int + i]));
                }
                i = i + 1;
            }
            proof {
                assert(v@ =~= self.spec_out().subrange(0, frames as int));
            }
            Some(v)
        } else {
            None
        }
    }

    /// Consume up to `frames` approved samples, compacting the queue once
    /// enough has been consumed.
    pub fn consume_chunk(&mut self, frames: usize)
        requires
            old(self).inv(),
        ensures
            final(self).inv(),
            final(self).spec_config() == old(self).spec_config(),
            final(self).pending_tail == old(self).pending_tail,
            final(self).in_buf == old(self).in_buf,
            final(self).spec_out() == old(self).spec_out().skip(
                if frames <= old(self).spec_out().len() {
                    frames as int
                } else {
                    old(self).spec_out().len() as int
                },
            ),
    {
        let available: usize = self.out_buf.len() - self.out_cursor;
        if frames >= available {
            self.out_cursor = self.out_buf.len();
        } else {
            self.out_cursor = self.out_cursor + frames;
        }
        if self.out_cursor >= 65536 && self.out_cursor >= self.out_buf.len() - self.out_cursor {
            let mut rest = self.out_buf.split_off(self.out_cursor);
            core::mem::swap(&mut self.out_buf, &mut rest);
            self.out_cursor = 0;
        }
        proof {
            assert(final(self).spec_out() =~= old(self).spec_out().skip(
                if frames <= old(self).spec_out().len() {
                    frames as int
                } else {
                    old(self).spec_out().len() as int
                },
            ));
        }
    }

    /// Whatever approved samples remain, without consuming them; `None`
    /// when nothing is queued.
    pub fn peek_remainder(&self) -> (r: Option<Vec<i64>>)
        requires
            self.inv(),
        ensures
            r is Some <==> self.spec_out().len() > 0,
            match r {
                Some(v) => v@ == self.spec_out(),
                None => true,
            },
    {
        let available: usize = self.out_buf.len() - self.out_cursor;
        if available > 0 {
            let r = self.peek_chunk(available);
            match r {
                Some(v) => {
                    proof {
                        assert(self.spec_out().subrange(0, available as int) =~= self.spec_out());
                    }
                    Some(v)
                },
                None => None,
            }
        } else {
            None
        }
    }

    /// Consume everything that remains in the output queue.
    pub fn consume_remainder(&mut self)
        requires
            old(self).inv(),
        ensures
            final(self).inv(),
            final(self).spec_config() == old(self).spec_config(),
            final(self).pending_tail == old(self).pending_tail,
            final(self).in_buf == old(self).in_buf,
            final(self).spec_out() == Seq::<i64>::empty(),
    {
        self.out_buf.clear();
        self.out_cursor = 0;
        proof {
            assert(final(self).spec_out() =~= Seq::<i64>::empty());
        }
    }
}

/// One step of the receiver loop over a VAD stream: feed the received
/// event in, then serve from the queue.
///
/// A `Some(chunk)` event is pushed through the stream; a `None` event —
/// the channel disconnecting — flushes the stream exactly once, noted in
/// `flushed`. Then: a whole chunk of `emit_frames` queued samples is
/// served and consumed when available; after the flush, a shorter
/// non-empty remainder is served and consumed; otherwise nothing is
/// served. `Ok(None)` after the flush means the stream is fully drained.
pub fn vad_rx_step<A: VadAnalyzer>(
    stream: &mut VadStream,
    analyzer: &mut A,
    flushed: &mut bool,
    emit_frames: usize,
    received: Option<Vec<i64>>,
) -> (r: Result<Option<Vec<i64>>, Error>)
    requires
        emit_frames >= 1,
        old(stream).inv(),
    ensures
        final(stream).inv(),
        final(stream).spec_config() == old(stream).spec_config(),
        *old(flushed) ==> *final(flushed),
        r is Ok && received is None ==> *final(flushed),
        *old(flushed) && received is None ==> *final(stream) == *old(stream) || final(stream).spec_out().len() < old(stream).spec_out().len(),
        r matches Ok(Some(v)) ==> v@.len() >= 1 && (v@.len() == emit_frames || (*final(flushed)
            && final(stream).spec_out().len() == 0)),
        r matches Ok(Some(v)) ==> ({
            let served = final(stream).spec_out().len() < old(stream).spec_out().len() || old(stream).spec_out().len() < v@.len();
            served || v@ == old(stream).spec_out().subrange(0, v@.len() as int)
        }),
        r == Ok::<Option<Vec<i64>>, Error>(None) ==> (*final(flushed) ==> final(stream).spec_out().len() == 0),
{
    match received {
        Some(chunk) => {
            stream.push(analyzer, &chunk)?;
        },
        None => {
            if !*flushed {
                stream.flush(analyzer)?;
                *flushed = true;
            }
        },
    }
    match stream.peek_chunk(emit_frames) {
        Some(v) => {
            stream.consume_chunk(emit_frames);
            return Ok(Some(v));
        },
        None => {},
    }
    if *flushed {
        match stream.peek_remainder() {
            Some(v) => {
                stream.consume_remainder();
                return Ok(Some(v));
            },
            None => {},
        }
    }
    Ok(None)
}

} // verus!
