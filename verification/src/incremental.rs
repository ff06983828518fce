//! Incremental, segment-driven transcription over a growing sample buffer.
//!
//! The transcriber buffers mono 16 kHz samples, runs the inference engine
//! once the live window is long enough, emits the finalized segments of
//! each batch (the last segment of a live batch is tentative unless
//! configured otherwise), and advances the window past the finalized end.
//! Exponential backoff avoids re-running inference on every small buffer
//! growth, and a 30-second window cap forces progress.
//!
//! The engine itself is an outside collaborator reached through
//! [`InferenceEngine`]; everything the transcriber promises holds whatever
//! batch the engine returns.

use vstd::prelude::*;

use crate::error::Error;
use crate::segments::{
    spec_clamp_cs, spec_refined_times, to_segment, apply_time_offset, wf_segment, RawSegment,
    Segment,
};

verus! {

/// Samples per second of audio handed to the backend.
pub const SAMPLES_PER_SECOND: usize = 16000;

/// Cap on the live window: thirty seconds of audio.
pub const MAX_WINDOW_SAMPLES: usize = 480000;

/// Cap on the exponential backoff: up to sixteen times the minimum window.
pub const MAX_BACKOFF_SHIFT: u32 = 4;

/// Whether one processing step advanced the stream.
#[derive(Clone, Copy, Debug, PartialEq, Eq, Structural)]
pub enum Progress {
    /// Nothing was finalized.
    NoOp,
    /// Segments were finalized and the window advanced.
    Advanced,
}

/// The ASR engine: maps a sample window to a batch of raw segments.
pub trait InferenceEngine {
    /// Transcribe one window of mono 16 kHz samples.
    fn infer(&mut self, window: &Vec<i64>) -> Result<Vec<RawSegment>, Error>;
}

/// The number of samples spanned by a backend end timestamp, clamped into
/// `[1, available]` so a degenerate segment still makes progress.
pub open spec fn spec_end_samples(end_cs: int, available: int) -> int {
    let raw = end_cs * 160;
    let at_least_one = if raw == 0 {
        1
    } else {
        raw
    };
    if at_least_one > available {
        available
    } else {
        at_least_one
    }
}

/// Convert a backend end timestamp to an advance in samples.
///
/// A negative timestamp is a backend fault and is refused; otherwise the
/// result is the timestamp in samples, clamped into `[1, available]`.
pub fn segment_end_samples(end_timestamp_cs: i64, available_samples: usize) -> (r: Result<
    usize,
    Error,
>)
    requires
        available_samples >= 1,
    ensures
        end_timestamp_cs < 0 <==> r is Err,
        end_timestamp_cs >= 0 ==> r == Ok::<usize, Error>(
            spec_end_samples(end_timestamp_cs as int, available_samples as int) as usize,
        ),
{
    if end_timestamp_cs < 0 {
        return Err(Error::invalid_input(String::from_str(
            "backend returned a negative end timestamp",
        )));
    }
    let cs: u64 = end_timestamp_cs as u64;
    let raw: u64 = if cs > u64::MAX / 160 {
        u64::MAX
    } else {
        cs * 160
    };
    let at_least_one: u64 = if raw == 0 {
        1
    } else {
        raw
    };
    let r: usize = if at_least_one > available_samples as u64 {
        available_samples
    } else {
        at_least_one as usize
    };
    proof {
        if cs > u64::MAX / 160 {
            assert(cs as int * 160 > u64::MAX as int) by (nonlinear_arith)
                requires
                    cs as int > u64::MAX as int / 160,
            ;
        }
    }
    Ok(r)
}

/// The factor `2^shift` for the backoff shifts in use.
pub open spec fn spec_pow2_small(shift: int) -> int {
    if shift <= 0 {
        1
    } else if shift == 1 {
        2
    } else if shift == 2 {
        4
    } else if shift == 3 {
        8
    } else {
        16
    }
}

/// Where the next inference attempt should trigger after a run that made
/// no progress: the current length plus a backed-off step, never past the
/// forced-flush boundary.
pub open spec fn spec_next_infer_threshold(
    current_len: int,
    min_window: int,
    max_window: int,
    runs: int,
) -> int {
    let shift = if runs >= 5 {
        4
    } else if runs >= 1 {
        runs - 1
    } else {
        0
    };
    let proposed = current_len + min_window * spec_pow2_small(shift);
    if proposed > max_window {
        max_window
    } else {
        proposed
    }
}

/// Schedule the next inference attempt after a no-progress run.
pub fn next_infer_threshold(
    current_len: usize,
    min_window_samples: usize,
    max_window_samples: usize,
    no_progress_runs: u32,
) -> (r: usize)
    ensures
        r as int == spec_next_infer_threshold(
            current_len as int,
            min_window_samples as int,
            max_window_samples as int,
            no_progress_runs as int,
        ),
{
    let shift: u32 = if no_progress_runs >= 1 {
        let s = no_progress_runs - 1;
        if s > MAX_BACKOFF_SHIFT {
            MAX_BACKOFF_SHIFT
        } else {
            s
        }
    } else {
        0
    };
    let factor: usize = if shift == 0 {
        1
    } else if shift == 1 {
        2
    } else if shift == 2 {
        4
    } else if shift == 3 {
        8
    } else {
        16
    };
    proof {
        assert(factor as int == spec_pow2_small(
            if no_progress_runs as int >= 5 {
                4int
            } else if no_progress_runs as int >= 1 {
                no_progress_runs as int - 1
            } else {
                0int
            },
        ));
    }
    let step: usize = if min_window_samples > usize::MAX / factor {
        usize::MAX
    } else {
        proof {
            assert(min_window_samples as int * factor as int <= usize::MAX as int)
                by (nonlinear_arith)
                requires
                    min_window_samples as int <= usize::MAX as int / factor as int,
                    factor as int >= 1,
            ;
        }
        min_window_samples * factor
    };
    let proposed: usize = if current_len > usize::MAX - step {
        usize::MAX
    } else {
        current_len + step
    };
    let r: usize = if proposed > max_window_samples {
        max_window_samples
    } else {
        proposed
    };
    proof {
        if min_window_samples > usize::MAX / factor {
            assert(min_window_samples as int * factor as int > usize::MAX as int)
                by (nonlinear_arith)
                requires
                    min_window_samples as int > usize::MAX as int / factor as int,
                    factor as int >= 1,
            ;
        } else {
            assert(min_window_samples as int * factor as int <= usize::MAX as int)
                by (nonlinear_arith)
                requires
                    min_window_samples as int <= usize::MAX as int / factor as int,
                    factor as int >= 1,
            ;
        }
    }
    r
}

/// Sum of a sequence of advances.
pub open spec fn spec_sum_advances(s: Seq<u64>) -> int
    decreases s.len(),
{
    if s.len() == 0 {
        0
    } else {
        spec_sum_advances(s.drop_last()) + s.last()
    }
}

/// How one emitted segment relates to the raw batch segment it came from:
/// sanitized (timestamps clamped and token-refined) and shifted by the
/// stream offset.
pub open spec fn spec_emitted_matches(
    s: Segment,
    raw: RawSegment,
    lang: Seq<char>,
    off: int,
) -> bool {
    &&& s.start_cs as int == spec_refined_times(raw).0 + off
    &&& s.end_cs as int == spec_refined_times(raw).1 + off
    &&& s.text@ == raw.text@
    &&& s.language_code@ == lang
    &&& s.next_speaker_turn == raw.next_speaker_turn
    &&& s.tokens@.len() == raw.tokens@.len()
    &&& forall|j: int|
        0 <= j < raw.tokens@.len() ==> {
            let t = #[trigger] s.tokens@[j];
            let rt = raw.tokens@[j];
            t.start_cs as int == spec_clamp_cs(rt.start_cs) + off && t.end_cs as int
                == spec_clamp_cs(rt.end_cs) + off && t.text@ == rt.text@ && t.probability_ppm
                == rt.probability_ppm
        }
    &&& wf_segment(s)
}

/// A streaming transcriber that incrementally emits segments as audio
/// arrives.
pub struct BufferedSegmentTranscriber {
    /// Backing buffer of mono 16 kHz samples.
    pub samples: Vec<i64>,
    /// Index of the first live sample; the live window is `samples[head..]`.
    pub head: usize,
    /// Total samples finalized since the beginning of the stream.
    pub advanced_samples: u64,
    /// Minimum live window before the first inference pass.
    pub min_window_samples: usize,
    /// Window cap forcing a flush.
    pub max_window_samples: usize,
    /// Live window length at which inference runs again.
    pub next_infer_at_samples: usize,
    /// Consecutive runs that made no progress, for backoff.
    pub no_progress_runs: u32,
    /// Emit every segment of a live batch instead of holding the last back.
    pub emit_single_segments: bool,
    /// Language hint attached to emitted segments; `None` becomes `"und"`.
    pub language: Option<String>,
    /// Every advance made so far, most recent last.
    pub advances: Ghost<Seq<u64>>,
}

impl BufferedSegmentTranscriber {
    /// The live window.
    pub open spec fn spec_window(&self) -> Seq<i64> {
        self.samples@.skip(self.head as int)
    }

    /// The live window length.
    pub open spec fn spec_win_len(&self) -> int {
        self.samples@.len() - self.head as int
    }

    /// The stream offset of the live window, in centiseconds.
    pub open spec fn spec_offset_cs(&self) -> int {
        self.advanced_samples as int / 160
    }

    /// The language code attached to emitted segments.
    pub open spec fn spec_lang(&self) -> Seq<char> {
        match self.language {
            Some(l) => l@,
            None => "und"@,
        }
    }

    /// The transcriber's invariant: the head never passes the end of the
    /// buffer, and the total advance is exactly the sum of the recorded
    /// advances.
    pub open spec fn inv(&self) -> bool {
        &&& self.head <= self.samples@.len()
        &&& self.advanced_samples as int == spec_sum_advances(self.advances@)
    }

    /// The configuration fields, which no processing step changes.
    pub open spec fn spec_config(&self) -> (usize, usize, bool, Option<String>) {
        (self.min_window_samples, self.max_window_samples, self.emit_single_segments, self.language)
    }

    /// Create a transcriber for a given minimum window.
    pub fn new(
        incremental_min_window_seconds: u32,
        emit_single_segments: bool,
        language: Option<String>,
    ) -> (r: BufferedSegmentTranscriber)
        ensures
            r.inv(),
            r.samples@.len() == 0,
            r.head == 0,
            r.advanced_samples == 0,
            r.min_window_samples as int == if 16000 * incremental_min_window_seconds as int
                <= usize::MAX as int {
                16000 * incremental_min_window_seconds as int
            } else {
                usize::MAX as int
            },
            r.max_window_samples == MAX_WINDOW_SAMPLES,
            r.next_infer_at_samples == r.min_window_samples,
            r.no_progress_runs == 0,
            r.emit_single_segments == emit_single_segments,
            r.language == language,
            r.advances@ == Seq::<u64>::empty(),
    {
        let wanted: u64 = 16000u64 * (incremental_min_window_seconds as u64);
        let min_window_samples: usize = if wanted > usize::MAX as u64 {
            usize::MAX
        } else {
            wanted as usize
        };
        BufferedSegmentTranscriber {
            samples: Vec::new(),
            head: 0,
            advanced_samples: 0,
            min_window_samples,
            max_window_samples: MAX_WINDOW_SAMPLES,
            next_infer_at_samples: min_window_samples,
            no_progress_runs: 0,
            emit_single_segments,
            language,
            advances: Ghost(Seq::empty()),
        }
    }

    /// The live window length.
    pub fn window_len(&self) -> (r: usize)
        requires
            self.inv(),
        ensures
            r as int == self.spec_win_len(),
    {
        self.samples.len() - self.head
    }

    /// A copy of the live window.
    fn window_copy(&self) -> (r: Vec<i64>)
        requires
            self.inv(),
        ensures
            r@ == self.spec_window(),
    {
        let mut out: Vec<i64> = Vec::new();
        let mut i: usize = self.head;
        while i < self.samples.len()
            invariant
                self.head <= i <= self.samples@.len(),
                out@ =~= self.samples@.subrange(self.head as int, i as int),
            decreases self.samples@.len() - i,
        {
            out.push(self.samples[i]);
            proof {
                assert(self.samples@.subrange(self.head as int, i + 1) =~= self.samples@.subrange(
                    self.head as int,
                    i as int,
                ).push(self.samples@[i as int]));
            }
            i = i + 1;
        }
        proof {
            assert(out@ =~= self.spec_window());
        }
        out
    }

    /// Discard consumed samples when enough have accumulated: after at
    /// least one second was consumed, or once the head passed half the
    /// buffer.
    fn maybe_compact(&mut self)
        requires
            old(self).inv(),
        ensures
            final(self).inv(),
            final(self).spec_window() == old(self).spec_window(),
            final(self).advanced_samples == old(self).advanced_samples,
            final(self).advances == old(self).advances,
            final(self).spec_config() == old(self).spec_config(),
            final(self).next_infer_at_samples == old(self).next_infer_at_samples,
            final(self).no_progress_runs == old(self).no_progress_runs,
    {
        if self.head == 0 {
            return ;
        }
        let should_compact: bool = self.head >= SAMPLES_PER_SECOND || self.head >= self.samples.len()
            / 2;
        if should_compact {
            let mut tail = self.samples.split_off(self.head);
            core::mem::swap(&mut self.samples, &mut tail);
            self.head = 0;
        }
    }

    /// Whether a step must flush everything it has: end of stream, or the
    /// window has reached its cap.
    pub open spec fn spec_force_flush(&self, end_of_stream: bool) -> bool {
        end_of_stream || self.spec_win_len() >= self.max_window_samples
    }

    /// How many segments of a batch of `n` are finalized: all of them when
    /// flushing or configured to emit eagerly, else all but the tentative
    /// last one.
    pub open spec fn spec_emit_count(&self, n: int, end_of_stream: bool) -> int {
        if self.spec_force_flush(end_of_stream) || self.emit_single_segments {
            n
        } else if n >= 2 {
            n - 1
        } else {
            0
        }
    }

    /// Whether a processing step does nothing at all: the window is
    /// empty, or — before end of stream — still below the minimum window
    /// or the backoff threshold.
    pub open spec fn spec_guarded_noop(&self, end_of_stream: bool) -> bool {
        ||| self.spec_win_len() == 0
        ||| (!end_of_stream && self.spec_win_len() < self.min_window_samples)
        ||| (!self.spec_force_flush(end_of_stream) && self.spec_win_len()
            < self.next_infer_at_samples)
    }

    /// Apply one batch returned by the engine for the current live window.
    ///
    /// The finalized prefix of the batch is sanitized, shifted by the
    /// stream offset, and appended to `out`; the window advances past the
    /// last finalized segment's raw end timestamp (clamped into the
    /// window, and at least one sample). A batch that finalizes nothing
    /// only backs off the next inference threshold. A batch whose last
    /// finalized segment carries a negative end timestamp is refused
    /// before anything is emitted or changed.
    pub fn apply_batch(
        &mut self,
        batch: &Vec<RawSegment>,
        end_of_stream: bool,
        out: &mut Vec<Segment>,
    ) -> (r: Result<Progress, Error>)
        requires
            old(self).inv(),
            old(self).spec_win_len() >= 1,
            old(self).advanced_samples as int + old(self).spec_win_len() <= u64::MAX as int,
        ensures
            final(self).inv(),
            final(self).spec_config() == old(self).spec_config(),
            final(out)@.len() >= old(out)@.len(),
            final(out)@.subrange(0, old(out)@.len() as int) == old(out)@,
            final(self).advanced_samples as int + final(self).spec_win_len() <= old(self).advanced_samples as int + old(self).spec_win_len(),
            final(self).advanced_samples >= old(self).advanced_samples,
            ({
                let n = batch@.len() as int;
                let force = old(self).spec_force_flush(end_of_stream);
                let k = old(self).spec_emit_count(n, end_of_stream);
                &&& (k == 0 ==> r == Ok::<Progress, Error>(Progress::NoOp) && final(out)@ == old(out)@ && final(self).samples == old(self).samples && final(self).head == old(self).head && final(self).advanced_samples == old(self).advanced_samples && final(self).advances == old(self).advances && (force ==> *final(self) == *old(self)) && (
                !force ==> final(self).no_progress_runs as int == spec_sat_inc(
                    old(self).no_progress_runs as int,
                ) && final(self).next_infer_at_samples as int == spec_next_infer_threshold(
                    old(self).spec_win_len(),
                    old(self).min_window_samples as int,
                    old(self).max_window_samples as int,
                    spec_sat_inc(old(self).no_progress_runs as int),
                )))
                &&& (k >= 1 && batch@[k - 1].end_cs < 0 ==> r is Err && *final(self) == *old(self)
                    && final(out)@ == old(out)@)
                &&& (k >= 1 && batch@[k - 1].end_cs >= 0 ==> ({
                    let delta = spec_end_samples(
                        batch@[k - 1].end_cs as int,
                        old(self).spec_win_len(),
                    );
                    &&& r == Ok::<Progress, Error>(Progress::Advanced)
                    &&& final(out)@.len() == old(out)@.len() + k
                    &&& forall|i: int|
                        0 <= i < k ==> spec_emitted_matches(
                            #[trigger] final(out)@[old(out)@.len() + i],
                            batch@[i],
                            old(self).spec_lang(),
                            old(self).spec_offset_cs(),
                        )
                    &&& final(self).advanced_samples as int == old(self).advanced_samples as int
                        + delta
                    &&& final(self).advances@ == old(self).advances@.push(delta as u64)
                    &&& final(self).spec_window() == old(self).spec_window().skip(delta)
                    &&& final(self).no_progress_runs == 0
                    &&& final(self).next_infer_at_samples as int == (if force {
                        old(self).min_window_samples as int
                    } else {
                        spec_sat_add_usize(
                            old(self).spec_win_len() - delta,
                            old(self).min_window_samples as int,
                        )
                    })
                }))
            }),
    {
        let win_len: usize = self.window_len();
        let n: usize = batch.len();
        let force: bool = end_of_stream || win_len >= self.max_window_samples;
        let k: usize = if force || self.emit_single_segments {
            n
        } else if n >= 2 {
            n - 1
        } else {
            0
        };
        if k == 0 {
            if !force {
                self.no_progress_runs = if self.no_progress_runs == u32::MAX {
                    u32::MAX
                } else {
                    self.no_progress_runs + 1
                };
                self.next_infer_at_samples = next_infer_threshold(
                    win_len,
                    self.min_window_samples,
                    self.max_window_samples,
                    self.no_progress_runs,
                );
            }
            return Ok(Progress::NoOp);
        }
        let delta: usize = segment_end_samples(batch[k - 1].end_cs, win_len)?;
        let offset_cs: u64 = self.advanced_samples / 160;
        let ghost out_base = out@.len() as int;
        let mut i: usize = 0;
        while i < k
            invariant
                k <= batch@.len(),
                0 <= i <= k,
                out@.len() == out_base + i,
                out_base == old(out)@.len(),
                out@.subrange(0, out_base) == old(out)@,
                offset_cs as int == self.spec_offset_cs(),
                offset_cs <= u64::MAX / 160,
                *self == *old(self),
                forall|j: int|
                    0 <= j < i ==> spec_emitted_matches(
                        #[trigger] out@[out_base + j],
                        batch@[j],
                        self.spec_lang(),
                        self.spec_offset_cs(),
                    ),
            decreases k - i,
        {
            let lang: String = match &self.language {
                Some(l) => l.clone(),
                None => String::from_str("und"),
            };
            let mut seg = to_segment(&batch[i], lang);
            apply_time_offset(&mut seg, offset_cs);
            out.push(seg);
            proof {
                assert(out@.subrange(0, out_base) =~= old(out)@);
            }
            i = i + 1;
        }
        let total: usize = self.samples.len();
        proof {
            assert(delta >= 1 && delta <= self.spec_win_len());
            assert(self.head + delta <= total);
        }
        self.head = self.head + delta;
        self.advanced_samples = self.advanced_samples + delta as u64;
        proof {
            let a = self.advances@;
            assert(a.push(delta as u64).drop_last() =~= a);
            assert(spec_sum_advances(a.push(delta as u64)) == spec_sum_advances(a) + delta);
        }
        self.advances = Ghost(self.advances@.push(delta as u64));
        proof {
            assert(self.spec_window() =~= old(self).spec_window().skip(delta as int));
        }
        self.maybe_compact();
        self.no_progress_runs = 0;
        if !force {
            let w: usize = self.window_len();
            self.next_infer_at_samples = if w > usize::MAX - self.min_window_samples {
                usize::MAX
            } else {
                w + self.min_window_samples
            };
        } else {
            self.next_infer_at_samples = self.min_window_samples;
        }
        Ok(Progress::Advanced)
    }

    /// Run one processing step: decide whether inference is due, run the
    /// engine on the live window, and apply the batch.
    ///
    /// Nothing happens while the window is empty, or — before end of
    /// stream — while it is shorter than the minimum window or the backoff
    /// threshold. At end of stream, or once the window reaches its cap,
    /// the step is forced.
    pub fn process_available<E: InferenceEngine>(
        &mut self,
        engine: &mut E,
        end_of_stream: bool,
        out: &mut Vec<Segment>,
    ) -> (r: Result<Progress, Error>)
        requires
            old(self).inv(),
            old(self).advanced_samples as int + old(self).spec_win_len() <= u64::MAX as int,
        ensures
            final(self).inv(),
            final(self).spec_config() == old(self).spec_config(),
            final(out)@.len() >= old(out)@.len(),
            final(out)@.subrange(0, old(out)@.len() as int) == old(out)@,
            final(self).advanced_samples as int + final(self).spec_win_len() <= old(self).advanced_samples as int + old(self).spec_win_len(),
            final(self).advanced_samples >= old(self).advanced_samples,
            final(self).spec_window() == old(self).spec_window().skip(
                final(self).advanced_samples as int - old(self).advanced_samples as int,
            ),
            forall|i: int|
                old(out)@.len() <= i < final(out)@.len() ==> wf_segment(#[trigger] final(out)@[i])
                    && final(out)@[i].start_cs as int >= old(self).spec_offset_cs(),
            old(self).spec_guarded_noop(end_of_stream) ==> r == Ok::<Progress, Error>(
                Progress::NoOp,
            ) && *final(self) == *old(self) && final(out)@ == old(out)@ && *final(engine) == *old(engine),
            r == Ok::<Progress, Error>(Progress::NoOp) ==> final(self).spec_window() == old(self).spec_window() && final(self).advanced_samples == old(self).advanced_samples,
            r == Ok::<Progress, Error>(Progress::Advanced) ==> final(self).spec_win_len() < old(self).spec_win_len(),
    {
        proof {
            assert(old(self).spec_window().skip(0) =~= old(self).spec_window());
        }
        let win_len: usize = self.window_len();
        if win_len == 0 {
            return Ok(Progress::NoOp);
        }
        if !end_of_stream && win_len < self.min_window_samples {
            return Ok(Progress::NoOp);
        }
        let force_flush: bool = end_of_stream || win_len >= self.max_window_samples;
        if !force_flush && win_len < self.next_infer_at_samples {
            return Ok(Progress::NoOp);
        }
        let window = self.window_copy();
        let batch = engine.infer(&window)?;
        let r = self.apply_batch(&batch, end_of_stream, out);
        proof {
            let base = old(out)@.len() as int;
            vstd::arithmetic::div_mod::lemma_div_pos_is_pos(old(self).advanced_samples as int, 160);
            assert forall|i: int| base <= i < out@.len() implies wf_segment(#[trigger] out@[i])
                && out@[i].start_cs as int >= old(self).spec_offset_cs() by {
                let k = old(self).spec_emit_count(batch@.len() as int, end_of_stream);
                assert(out@[i] == out@[base + (i - base)]);
                assert(spec_emitted_matches(
                    out@[base + (i - base)],
                    batch@[i - base],
                    old(self).spec_lang(),
                    old(self).spec_offset_cs(),
                ));
            }
        }
        r
    }

    /// Feed one chunk of mono 16 kHz samples and process what is ready.
    pub fn on_samples<E: InferenceEngine>(
        &mut self,
        engine: &mut E,
        chunk: &Vec<i64>,
        out: &mut Vec<Segment>,
    ) -> (r: Result<bool, Error>)
        requires
            old(self).inv(),
            old(self).samples@.len() + chunk@.len() <= usize::MAX,
            old(self).advanced_samples as int + old(self).spec_win_len() + chunk@.len()
                <= u64::MAX as int,
        ensures
            final(self).inv(),
            final(self).spec_config() == old(self).spec_config(),
            final(out)@.len() >= old(out)@.len(),
            final(out)@.subrange(0, old(out)@.len() as int) == old(out)@,
            final(self).advanced_samples >= old(self).advanced_samples,
            final(self).advanced_samples as int + final(self).spec_win_len() <= old(self).advanced_samples as int + old(self).spec_win_len() + chunk@.len(),
            final(self).spec_window() == (old(self).spec_window() + chunk@).skip(
                final(self).advanced_samples as int - old(self).advanced_samples as int,
            ),
            old(self).spec_win_len() + chunk@.len() < old(self).min_window_samples ==> r == Ok::<
                bool,
                Error,
            >(true) && final(out)@ == old(out)@ && *final(engine) == *old(engine) && final(self).advanced_samples == old(self).advanced_samples,
            forall|i: int|
                old(out)@.len() <= i < final(out)@.len() ==> wf_segment(#[trigger] final(out)@[i])
                    && final(out)@[i].start_cs as int >= old(self).spec_offset_cs(),
            r is Ok ==> r == Ok::<bool, Error>(true),
    {
        self.samples.extend_from_slice(chunk.as_slice());
        proof {
            assert(self.spec_window() =~= old(self).spec_window() + chunk@);
        }
        let _ = self.process_available(engine, false, out)?;
        Ok(true)
    }

    /// Flush at end of stream: run forced processing steps until no more
    /// progress is made, then discard the remaining window.
    pub fn finish<E: InferenceEngine>(&mut self, engine: &mut E, out: &mut Vec<Segment>) -> (r:
        Result<(), Error>)
        requires
            old(self).inv(),
            old(self).advanced_samples as int + old(self).spec_win_len() <= u64::MAX as int,
        ensures
            final(self).inv(),
            final(self).spec_config() == old(self).spec_config(),
            final(out)@.len() >= old(out)@.len(),
            final(out)@.subrange(0, old(out)@.len() as int) == old(out)@,
            final(self).advanced_samples >= old(self).advanced_samples,
            forall|i: int|
                old(out)@.len() <= i < final(out)@.len() ==> wf_segment(#[trigger] final(out)@[i])
                    && final(out)@[i].start_cs as int >= old(self).spec_offset_cs(),
            old(self).spec_win_len() == 0 ==> r is Ok && final(out)@ == old(out)@ && *final(engine) == *old(engine) && final(self).advanced_samples == old(self).advanced_samples,
            r is Ok ==> final(self).samples@.len() == 0 && final(self).head == 0,
    {
        let ghost out_base = out@.len() as int;
        let mut progressed: bool = true;
        while progressed
            invariant
                self.inv(),
                self.spec_config() == old(self).spec_config(),
                self.advanced_samples as int + self.spec_win_len() <= u64::MAX as int,
                self.advanced_samples >= old(self).advanced_samples,
                self.spec_offset_cs() >= old(self).spec_offset_cs(),
                out@.len() >= out_base,
                out_base == old(out)@.len(),
                out@.subrange(0, out_base) == old(out)@,
                old(self).spec_win_len() == 0 ==> out@ == old(out)@ && *engine == *old(engine)
                    && self.advanced_samples == old(self).advanced_samples && self.spec_win_len()
                    == 0,
                forall|i: int|
                    out_base <= i < out@.len() ==> wf_segment(#[trigger] out@[i])
                        && out@[i].start_cs as int >= old(self).spec_offset_cs(),
            decreases self.spec_win_len() + (if progressed {
                1int
            } else {
                0int
            }),
        {
            let ghost prev = *self;
            let ghost out_prev = out@.len() as int;
            let res = self.process_available(engine, true, out);
            proof {
                vstd::arithmetic::div_mod::lemma_div_is_ordered(
                    old(self).advanced_samples as int,
                    prev.advanced_samples as int,
                    160,
                );
                assert(out@.subrange(0, out_base) =~= out@.subrange(0, out_prev).subrange(
                    0,
                    out_base,
                ));
                assert forall|i: int| out_base <= i < out@.len() implies wf_segment(
                    #[trigger] out@[i],
                ) && out@[i].start_cs as int >= old(self).spec_offset_cs() by {
                    if i < out_prev {
                        assert(out@[i] == out@.subrange(0, out_prev)[i]);
                    } else {
                        assert(out@[i].start_cs as int >= prev.spec_offset_cs());
                    }
                }
            }
            let p = match res {
                Ok(p) => p,
                Err(e) => {
                    return Err(e);
                },
            };
            progressed = p == Progress::Advanced;
        }
        self.samples.clear();
        self.head = 0;
        Ok(())
    }
}

/// A saturating increment of a counter.
pub open spec fn spec_sat_inc(x: int) -> int {
    if x >= u32::MAX {
        u32::MAX as int
    } else {
        x + 1
    }
}

/// A saturating addition within `usize`.
pub open spec fn spec_sat_add_usize(a: int, b: int) -> int {
    if a + b > usize::MAX {
        usize::MAX as int
    } else {
        a + b
    }
}

/// The transcriber's bookkeeping always balances: the live window is
/// exactly the buffer past the head, and the total number of samples
/// finalized is exactly the sum of the individual advances. Every
/// processing step preserves the invariant this follows from.
pub proof fn lemma_window_accounting(t: &BufferedSegmentTranscriber)
    requires
        t.inv(),
    ensures
        t.head + t.spec_win_len() == t.samples@.len(),
        t.advanced_samples as int == spec_sum_advances(t.advances@),
{
}

/// The segments a batch emits are in order and stay on the finalized side
/// of the timeline: when the batch's refined start times are
/// non-decreasing, every emitted segment satisfies
/// `0 <= start_cs <= end_cs`, consecutive emitted segments are sorted by
/// `start_cs`, and none begins before the stream offset the window had
/// reached.
pub proof fn lemma_emitted_batch_ordered(
    emitted: Seq<Segment>,
    batch: Seq<RawSegment>,
    lang: Seq<char>,
    off: int,
    k: int,
)
    requires
        0 <= k <= batch.len(),
        emitted.len() == k,
        off >= 0,
        forall|i: int| 0 <= i < k ==> spec_emitted_matches(#[trigger] emitted[i], batch[i], lang, off),
        forall|i: int|
            0 <= i < k - 1 ==> spec_refined_times(#[trigger] batch[i]).0 <= spec_refined_times(
                batch[i + 1],
            ).0,
    ensures
        forall|i: int| 0 <= i < k ==> 0 <= (#[trigger] emitted[i]).start_cs <= emitted[i].end_cs,
        forall|i: int| 0 <= i < k - 1 ==> (#[trigger] emitted[i]).start_cs <= emitted[i + 1].start_cs,
        forall|i: int| 0 <= i < k ==> (#[trigger] emitted[i]).start_cs as int >= off,
{
}

/// Once a batch advances the window by exactly its last finalized end
/// (the advance was not clamped) and every advance so far was a whole
/// number of centiseconds, the next stream offset is exactly the old
/// offset plus that end: later batches begin at or after everything
/// emitted so far.
pub proof fn lemma_offset_continues(advanced_old: int, end_cs: int)
    requires
        advanced_old >= 0,
        advanced_old % 160 == 0,
        end_cs >= 0,
    ensures
        (advanced_old + end_cs * 160) / 160 == advanced_old / 160 + end_cs,
{
    let q = advanced_old / 160;
    vstd::arithmetic::div_mod::lemma_fundamental_div_mod(advanced_old, 160);
    assert(advanced_old == 160 * q);
    assert(advanced_old + end_cs * 160 == 160 * (q + end_cs)) by (nonlinear_arith)
        requires
            advanced_old == 160 * q,
    ;
    vstd::arithmetic::div_mod::lemma_div_by_multiple(q + end_cs, 160);
    assert((160 * (q + end_cs)) / 160 == ((q + end_cs) * 160) / 160) by (nonlinear_arith);
    vstd::arithmetic::div_mod::lemma_div_by_multiple(q, 160);
    assert((160 * q) / 160 == (q * 160) / 160) by (nonlinear_arith);
}

} // verus!
