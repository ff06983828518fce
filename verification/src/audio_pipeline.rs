//! PCM normalization pipeline: downmix decoded frames to mono, hand fixed
//! blocks to a rate converter when the source is not 16 kHz, and emit
//! fixed-size chunks to a sink.
//!
//! The sink and the rate converter are modeled by histories: a sink
//! records every chunk it accepted together with its answer, a converter
//! records every block it converted together with its output. The
//! pipeline's contracts say exactly which chunks reach the sink: the
//! whole chunks, in order, of the produced 16 kHz stream — every chunk
//! exactly `target_chunk_frames_16k` samples — with the one short
//! residual chunk allowed only at the end of `finalize`. A sink answer of
//! false stops emission for the current call; undelivered samples wait in
//! the output accumulator.
//!
//! The converter always receives blocks of exactly
//! [`RESAMPLE_BLOCK_FRAMES`] source frames; the source accumulator
//! carries the partial block between calls, and `finalize` zero-pads the
//! tail to whole blocks and converts to completion.

use vstd::prelude::*;

use vstd::arithmetic::div_mod::{
    lemma_div_is_ordered, lemma_div_by_multiple, lemma_fundamental_div_mod_converse,
};
use crate::error::Error;

verus! {

/// Source frames fed to the rate converter per call.
pub const RESAMPLE_BLOCK_FRAMES: usize = 2048;

/// One decoded PCM frame: interleaved fixed-point samples plus the frame's
/// sample rate and channel count.
pub struct DecodedFrame {
    /// Source sample rate in Hz.
    pub sample_rate: u32,
    /// Number of interleaved channels.
    pub channels: usize,
    /// Interleaved samples, `channels` per frame.
    pub interleaved: Vec<i64>,
}

/// Consumer of mono 16 kHz sample chunks.
///
/// A sink is modeled by its history: every chunk it accepted, in order,
/// each with the answer it gave — true to continue, false to ask the
/// producer to stop early.
pub trait SamplesSink {
    /// The chunks accepted so far, each with the answer given.
    ///
    /// The default leaves the history unspecified; an implementation
    /// verified against the delivery contracts provides its own model.
    open spec fn spec_received(&self) -> Seq<(Seq<i64>, bool)> {
        arbitrary()
    }

    /// Receive one chunk of mono 16 kHz samples.
    fn on_samples(&mut self, samples_16k_mono: &Vec<i64>) -> (r: Result<bool, Error>)
        ensures
            r matches Ok(b) ==> final(self).spec_received() == old(self).spec_received().push(
                (samples_16k_mono@, b),
            ),
    ;
}

/// A fixed-input-block rate converter from the source rate to 16 kHz.
///
/// A converter is modeled by its history: every block it converted, in
/// order, each with the output it returned.
pub trait BlockResampler {
    /// The conversions performed so far: each input block with its output.
    ///
    /// The default leaves the history unspecified; an implementation
    /// verified against the conversion contracts provides its own model.
    open spec fn spec_converted(&self) -> Seq<(Seq<i64>, Seq<i64>)> {
        arbitrary()
    }

    /// Convert one full source block; returns the resampled samples.
    fn resample_block(&mut self, block: &Vec<i64>) -> (r: Result<Vec<i64>, Error>)
        requires
            block@.len() == RESAMPLE_BLOCK_FRAMES,
        ensures
            r matches Ok(out) ==> final(self).spec_converted() == old(self).spec_converted().push(
                (block@, out@),
            ),
    ;
}

/// Integer division truncating toward zero, the rounding a downmix uses.
pub open spec fn spec_div_trunc(a: int, b: int) -> int {
    if a >= 0 {
        a / b
    } else {
        -((-a) / b)
    }
}

/// Sum of the first `c` channel samples of frame `f`.
pub open spec fn spec_channel_sum(s: Seq<i64>, channels: int, f: int, c: int) -> int
    decreases c,
{
    if c <= 0 {
        0
    } else {
        spec_channel_sum(s, channels, f, c - 1) + s[f * channels + (c - 1)]
    }
}

/// The mono sample for frame `f`: the equal-weight average of its channels,
/// truncated toward zero.
pub open spec fn spec_frame_mono(s: Seq<i64>, channels: int, f: int) -> int {
    spec_div_trunc(spec_channel_sum(s, channels, f, channels), channels)
}

/// The channel sum stays between `c` times the extreme sample values.
proof fn lemma_channel_sum_bounds(s: Seq<i64>, channels: int, f: int, c: int)
    requires
        0 <= c,
        0 <= f,
        channels >= 1,
        (f + 1) * channels <= s.len(),
        c <= channels,
    ensures
        c * (i64::MIN as int) <= spec_channel_sum(s, channels, f, c) <= c * (i64::MAX as int),
    decreases c,
{
    if c > 0 {
        lemma_channel_sum_bounds(s, channels, f, c - 1);
        assert(0 <= f * channels + (c - 1) < s.len()) by (nonlinear_arith)
            requires
                0 <= f,
                channels >= 1,
                0 < c <= channels,
                (f + 1) * channels <= s.len(),
        ;
        assert(c * (i64::MIN as int) == (c - 1) * (i64::MIN as int) + i64::MIN) by (nonlinear_arith);
        assert(c * (i64::MAX as int) == (c - 1) * (i64::MAX as int) + i64::MAX) by (nonlinear_arith);
    } else {
        assert(c * (i64::MIN as int) == 0) by (nonlinear_arith)
            requires
                c == 0,
        ;
        assert(c * (i64::MAX as int) == 0) by (nonlinear_arith)
            requires
                c == 0,
        ;
    }
}

/// The equal-weight average of the channels of frame `f`.
fn frame_average(s: &Vec<i64>, channels: usize, f: usize) -> (r: i64)
    requires
        channels >= 1,
        (f + 1) * channels <= s@.len(),
    ensures
        r as int == spec_frame_mono(s@, channels as int, f as int),
{
    let s_len: usize = s.len();
    let mut acc: i128 = 0;
    let mut c: usize = 0;
    while c < channels
        invariant
            channels >= 1,
            (f + 1) * channels <= s@.len(),
            s@.len() == s_len,
            0 <= c <= channels,
            acc == spec_channel_sum(s@, channels as int, f as int, c as int),
            (c as int) * (i64::MIN as int) <= acc <= (c as int) * (i64::MAX as int),
        decreases channels - c,
    {
        proof {
            assert(0 <= (f as int) * (channels as int) + c && (f as int) * (channels as int) + c
                < s@.len() && (f as int) * (channels as int) + c <= usize::MAX) by (nonlinear_arith)
                requires
                    0 <= f,
                    channels >= 1,
                    0 <= c < channels,
                    ((f as int) + 1) * (channels as int) <= s@.len(),
                    s@.len() <= usize::MAX,
            ;
        }
        let idx: usize = f * channels + c;
        let v: i64 = s[idx];
        proof {
            assert(((c as int) + 1) * (i64::MIN as int) == (c as int) * (i64::MIN as int)
                + i64::MIN) by (nonlinear_arith);
            assert(((c as int) + 1) * (i64::MAX as int) == (c as int) * (i64::MAX as int)
                + i64::MAX) by (nonlinear_arith);
        }
        acc = acc + v as i128;
        c = c + 1;
    }
    proof {
        assert((channels as int) * (i64::MIN as int) >= (0xffff_ffff_ffff_ffff as int) * (
        i64::MIN as int) && (channels as int) * (i64::MAX as int) <= (0xffff_ffff_ffff_ffff as int)
            * (i64::MAX as int)) by (nonlinear_arith)
            requires
                1 <= channels as int <= 0xffff_ffff_ffff_ffff as int,
        ;
    }
    if acc >= 0 {
        let q: u128 = (acc as u128) / (channels as u128);
        proof {
            lemma_div_is_ordered(acc as int, (channels as int) * (i64::MAX as int), channels as int);
            lemma_div_by_multiple(i64::MAX as int, channels as int);
            assert(((channels as int) * (i64::MAX as int)) == ((i64::MAX as int) * (
            channels as int))) by (nonlinear_arith);
        }
        q as i64
    } else {
        let mag: u128 = (-acc) as u128;
        let q: u128 = mag / (channels as u128);
        proof {
            assert(mag as int <= (channels as int) * (0x8000_0000_0000_0000 as int))
                by (nonlinear_arith)
                requires
                    acc >= (channels as int) * (i64::MIN as int),
                    mag as int == -(acc as int),
                    channels >= 1,
            ;
            lemma_div_is_ordered(
                mag as int,
                (channels as int) * (0x8000_0000_0000_0000 as int),
                channels as int,
            );
            lemma_div_by_multiple(0x8000_0000_0000_0000 as int, channels as int);
            assert(((channels as int) * (0x8000_0000_0000_0000 as int)) == ((
            0x8000_0000_0000_0000 as int) * (channels as int))) by (nonlinear_arith);
        }
        if q >= 0x8000_0000_0000_0000u128 {
            i64::MIN
        } else {
            -(q as i64)
        }
    }
}

/// Downmix interleaved samples into mono by averaging channels.
///
/// A mono buffer passes through unchanged; otherwise every frame becomes
/// the equal-weight average of its channels. Trailing samples that do not
/// fill a whole frame are dropped.
pub fn downmix_to_mono(interleaved: &Vec<i64>, channels: usize) -> (r: Vec<i64>)
    requires
        channels >= 1,
    ensures
        r@.len() == interleaved@.len() as int / (channels as int),
        channels == 1 ==> r@ == interleaved@,
        forall|f: int|
            0 <= f < r@.len() ==> (#[trigger] r@[f]) as int == spec_frame_mono(
                interleaved@,
                channels as int,
                f,
            ),
{
    if channels == 1 {
        let r = interleaved.clone();
        proof {
            assert(r@ =~= interleaved@);
            assert forall|f: int| 0 <= f < r@.len() implies (#[trigger] r@[f]) as int
                == spec_frame_mono(interleaved@, 1, f) by {
                reveal_with_fuel(spec_channel_sum, 3);
                assert(spec_channel_sum(interleaved@, 1, f, 1) == interleaved@[f]);
                assert(spec_div_trunc(interleaved@[f] as int, 1) == interleaved@[f]) by {
                    vstd::arithmetic::div_mod::lemma_div_basics(interleaved@[f] as int);
                    vstd::arithmetic::div_mod::lemma_div_basics(-(interleaved@[f] as int));
                }
            }
        }
        return r;
    }
    let frames: usize = interleaved.len() / channels;
    let mut mono: Vec<i64> = Vec::new();
    let mut f: usize = 0;
    while f < frames
        invariant
            channels >= 1,
            frames == interleaved@.len() as int / (channels as int),
            0 <= f <= frames,
            mono@.len() == f,
            forall|g: int|
                0 <= g < f ==> (#[trigger] mono@[g]) as int == spec_frame_mono(
                    interleaved@,
                    channels as int,
                    g,
                ),
        decreases frames - f,
    {
        proof {
            assert(((f as int) + 1) * (channels as int) <= interleaved@.len()) by (nonlinear_arith)
                requires
                    0 <= f < frames,
                    channels >= 1,
                    frames == interleaved@.len() as int / (channels as int),
            ;
        }
        let v = frame_average(interleaved, channels, f);
        mono.push(v);
        f = f + 1;
    }
    mono
}

/// The whole chunks of `k` samples at the front of a stream, in order.
pub open spec fn spec_full_chunks(s: Seq<i64>, k: int) -> Seq<Seq<i64>> {
    Seq::new(((s.len() as int) / k) as nat, |i: int| s.subrange(i * k, i * k + k))
}

/// The concatenation of a sequence of chunks.
pub open spec fn spec_concat(chunks: Seq<Seq<i64>>) -> Seq<i64>
    decreases chunks.len(),
{
    if chunks.len() == 0 {
        Seq::empty()
    } else {
        spec_concat(chunks.drop_last()) + chunks.last()
    }
}

/// The concatenated outputs of a converter history.
pub open spec fn spec_outputs(conv: Seq<(Seq<i64>, Seq<i64>)>) -> Seq<i64>
    decreases conv.len(),
{
    if conv.len() == 0 {
        Seq::empty()
    } else {
        spec_outputs(conv.drop_last()) + conv.last().1
    }
}

/// A run of zero samples.
pub open spec fn spec_zeros(m: int) -> Seq<i64> {
    Seq::new(m as nat, |i: int| 0i64)
}

/// A source tail zero-padded up to whole converter blocks.
pub open spec fn spec_padded(s: Seq<i64>) -> Seq<i64> {
    if s.len() as int % (RESAMPLE_BLOCK_FRAMES as int) == 0 {
        s
    } else {
        s + spec_zeros(RESAMPLE_BLOCK_FRAMES as int - (s.len() as int % (
        RESAMPLE_BLOCK_FRAMES as int)))
    }
}

/// Whether a run of deliveries ended with the sink asking to stop.
pub open spec fn spec_stopped(new_entries: Seq<(Seq<i64>, bool)>) -> bool {
    new_entries.len() > 0 && !new_entries.last().1
}

/// Chunking is stable under appending: the whole chunks of a stream are
/// unchanged when the stream grows.
proof fn lemma_full_chunks_prefix(s1: Seq<i64>, s2: Seq<i64>, k: int)
    requires
        k >= 1,
        s1.len() <= s2.len(),
        s2.take(s1.len() as int) == s1,
    ensures
        s1.len() as int / k <= s2.len() as int / k,
        forall|i: int|
            0 <= i < s1.len() as int / k ==> #[trigger] spec_full_chunks(s2, k)[i]
                == spec_full_chunks(s1, k)[i],
{
    lemma_div_is_ordered(s1.len() as int, s2.len() as int, k);
    assert forall|i: int| 0 <= i < s1.len() as int / k implies #[trigger] spec_full_chunks(s2, k)[i]
        == spec_full_chunks(s1, k)[i] by {
        assert(0 <= i * k && i * k + k <= s1.len()) by (nonlinear_arith)
            requires
                k >= 1,
                0 <= i < s1.len() as int / k,
        ;
        assert(s2.subrange(i * k, i * k + k) =~= s1.subrange(i * k, i * k + k));
    }
}

/// The first `n` whole chunks of a stream reassemble exactly its first
/// `n * k` samples: chunked delivery loses and reorders nothing. With a
/// mono 16 kHz source the pipeline delivers exactly these chunks of the
/// decoded input (downmix is the identity), so a sink that never stops
/// receives the input sample for sample, the residual shorter than one
/// chunk arriving with `finalize`.
pub proof fn lemma_full_chunks_concat(s: Seq<i64>, k: int, n: int)
    requires
        k >= 1,
        0 <= n <= s.len() as int / k,
    ensures
        spec_concat(spec_full_chunks(s, k).take(n)) == s.take(n * k),
    decreases n,
{
    if n == 0 {
        assert(spec_full_chunks(s, k).take(0) =~= Seq::<Seq<i64>>::empty());
        assert(s.take(0) =~= Seq::<i64>::empty());
    } else {
        lemma_full_chunks_concat(s, k, n - 1);
        assert(0 <= (n - 1) * k && n * k <= s.len() && (n - 1) * k + k == n * k)
            by (nonlinear_arith)
            requires
                k >= 1,
                0 < n <= s.len() as int / k,
        ;
        let c = spec_full_chunks(s, k).take(n);
        assert(c.drop_last() =~= spec_full_chunks(s, k).take(n - 1));
        assert(c.last() == s.subrange((n - 1) * k, (n - 1) * k + k));
        assert(s.take((n - 1) * k) + s.subrange((n - 1) * k, n * k) =~= s.take(n * k));
    }
}

/// Hand every whole chunk at the front of `out_acc` to the sink, in
/// order, stopping as soon as the sink answers false; the delivered
/// samples leave the accumulator.
fn deliver_full_chunks<S: SamplesSink>(out_acc: &mut Vec<i64>, k: usize, sink: &mut S) -> (r:
    Result<bool, Error>)
    requires
        k >= 1,
    ensures
        r is Ok ==> ({
            let new = final(sink).spec_received().skip(old(sink).spec_received().len() as int);
            let n = new.len() as int;
            &&& final(sink).spec_received().len() >= old(sink).spec_received().len()
            &&& final(sink).spec_received().take(old(sink).spec_received().len() as int) == old(sink).spec_received()
            &&& n <= old(out_acc)@.len() as int / (k as int)
            &&& forall|i: int|
                0 <= i < n ==> (#[trigger] new[i]).0 == spec_full_chunks(
                    old(out_acc)@,
                    k as int,
                )[i]
            &&& forall|i: int| 0 <= i < n - 1 ==> (#[trigger] new[i]).1
            &&& final(out_acc)@ == old(out_acc)@.skip(n * (k as int))
            &&& (r == Ok::<bool, Error>(true) ==> n == old(out_acc)@.len() as int / (k as int)
                && !spec_stopped(new))
            &&& (r == Ok::<bool, Error>(false) ==> spec_stopped(new))
        }),
{
    let ghost base = sink.spec_received();
    let ghost orig = out_acc@;
    while out_acc.len() >= k
        invariant
            k >= 1,
            base == old(sink).spec_received(),
            orig == old(out_acc)@,
            sink.spec_received().len() >= base.len(),
            sink.spec_received().take(base.len() as int) == base,
            ({
                let new = sink.spec_received().skip(base.len() as int);
                let n = new.len() as int;
                &&& n <= orig.len() as int / (k as int)
                &&& n * (k as int) <= orig.len()
                &&& forall|i: int|
                    0 <= i < n ==> (#[trigger] new[i]).0 == spec_full_chunks(orig, k as int)[i]
                &&& forall|i: int| 0 <= i < n ==> (#[trigger] new[i]).1
                &&& out_acc@ == orig.skip(n * (k as int))
            }),
        decreases out_acc@.len(),
    {
        let ghost pre = sink.spec_received();
        let ghost n_before = pre.skip(base.len() as int).len() as int;
        proof {
            assert(out_acc@ == orig.skip(n_before * (k as int)));
            assert(orig.len() - n_before * (k as int) == out_acc@.len());
            assert((n_before + 1) * (k as int) == n_before * (k as int) + (k as int))
                by (nonlinear_arith);
            assert(n_before * (k as int) + (k as int) <= orig.len());
            assert(n_before < orig.len() as int / (k as int)) by (nonlinear_arith)
                requires
                    k >= 1,
                    0 <= n_before,
                    n_before * (k as int) + (k as int) <= orig.len(),
            ;
        }
        let mut rest = out_acc.split_off(k);
        core::mem::swap(out_acc, &mut rest);
        let chunk = rest;
        proof {
            assert(chunk@ =~= orig.subrange(n_before * (k as int), n_before * (k as int) + (
            k as int)));
            assert(out_acc@ =~= orig.skip((n_before + 1) * (k as int)));
            assert(spec_full_chunks(orig, k as int)[n_before] == chunk@);
        }
        let cont = sink.on_samples(&chunk)?;
        proof {
            assert(sink.spec_received() == pre.push((chunk@, cont)));
            assert(sink.spec_received().take(base.len() as int) =~= base);
            let new = sink.spec_received().skip(base.len() as int);
            assert(new =~= pre.skip(base.len() as int).push((chunk@, cont)));
            assert(new.len() == n_before + 1);
            assert(new[n_before].0 == chunk@);
            assert(forall|i: int|
                0 <= i < n_before ==> #[trigger] new[i] == pre.skip(base.len() as int)[i]);
        }
        if !cont {
            return Ok(false);
        }
    }
    proof {
        let new = sink.spec_received().skip(base.len() as int);
        let n = new.len() as int;
        assert(out_acc@ == orig.skip(n * (k as int)));
        assert(orig.len() - n * (k as int) == out_acc@.len());
        lemma_fundamental_div_mod_converse(
            orig.len() as int,
            k as int,
            n,
            out_acc@.len() as int,
        );
    }
    Ok(true)
}

/// A small stateful pipeline that turns decoded frames into mono 16 kHz
/// chunks.
pub struct AudioPipeline {
    /// Whether the rate converter has been engaged (source rate not 16 kHz).
    pub resampler_active: bool,
    /// Mono source samples waiting to fill the next converter block.
    pub mono_src_acc: Vec<i64>,
    /// Produced 16 kHz samples not yet delivered to the sink.
    pub out_acc: Vec<i64>,
}

impl AudioPipeline {
    /// The source accumulator stays empty until the converter is engaged.
    pub open spec fn inv(&self) -> bool {
        !self.resampler_active ==> self.mono_src_acc@.len() == 0
    }

    /// Create a pipeline with empty internal buffers.
    pub fn new() -> (r: AudioPipeline)
        ensures
            r.inv(),
            !r.resampler_active,
            r.mono_src_acc@.len() == 0,
            r.out_acc@.len() == 0,
    {
        AudioPipeline { resampler_active: false, mono_src_acc: Vec::new(), out_acc: Vec::new() }
    }

    /// Push one decoded frame through the pipeline and emit mono 16 kHz
    /// chunks of exactly `target_chunk_frames_16k` samples to the sink.
    ///
    /// A 16 kHz source bypasses the converter: the downmixed samples join
    /// the output accumulator and its whole chunks are delivered in
    /// order. Any other rate engages the converter: the downmixed samples
    /// join the source accumulator, every whole block is converted in
    /// order, and the outputs are chunked and delivered the same way. A
    /// frame with zero channels is refused with nothing changed. A sink
    /// answer of false stops both conversion and delivery for this call;
    /// what was not delivered waits in the accumulators.
    pub fn push_decoded_and_emit<R: BlockResampler, S: SamplesSink>(
        &mut self,
        resampler: &mut R,
        frame: &DecodedFrame,
        target_chunk_frames_16k: usize,
        sink: &mut S,
    ) -> (r: Result<(), Error>)
        requires
            old(self).inv(),
            target_chunk_frames_16k >= 1,
            old(self).mono_src_acc@.len() + frame.interleaved@.len() <= usize::MAX,
            old(self).out_acc@.len() + frame.interleaved@.len() <= usize::MAX,
        ensures
            final(self).inv(),
            frame.channels == 0 ==> r is Err && (r matches Err(e) ==> e is InvalidInput)
                && *final(self) == *old(self) && *final(sink) == *old(sink) && *final(resampler)
                == *old(resampler),
            r is Ok ==> frame.channels >= 1,
            r is Ok && frame.sample_rate == 16000 ==> ({
                let k = target_chunk_frames_16k as int;
                let produced = old(self).out_acc@ + spec_downmix_of(*frame);
                let new = final(sink).spec_received().skip(old(sink).spec_received().len() as int);
                let n = new.len() as int;
                &&& *final(resampler) == *old(resampler)
                &&& final(self).resampler_active == old(self).resampler_active
                &&& final(self).mono_src_acc == old(self).mono_src_acc
                &&& final(sink).spec_received().take(old(sink).spec_received().len() as int)
                    == old(sink).spec_received()
                &&& n <= produced.len() as int / k
                &&& (forall|i: int|
                    0 <= i < n ==> (#[trigger] new[i]).0 == spec_full_chunks(produced, k)[i])
                &&& (forall|i: int| 0 <= i < n - 1 ==> (#[trigger] new[i]).1)
                &&& final(self).out_acc@ == produced.skip(n * k)
                &&& (!spec_stopped(new) ==> n == produced.len() as int / k && final(self).out_acc@.len() < target_chunk_frames_16k)
            }),
            r is Ok && frame.sample_rate != 16000 ==> ({
                let k = target_chunk_frames_16k as int;
                let block = RESAMPLE_BLOCK_FRAMES as int;
                let combined = old(self).mono_src_acc@ + spec_downmix_of(*frame);
                let newc = final(resampler).spec_converted().skip(
                    old(resampler).spec_converted().len() as int,
                );
                let m = newc.len() as int;
                let produced = old(self).out_acc@ + spec_outputs(newc);
                let new = final(sink).spec_received().skip(old(sink).spec_received().len() as int);
                let n = new.len() as int;
                &&& final(self).resampler_active
                &&& final(resampler).spec_converted().take(
                    old(resampler).spec_converted().len() as int,
                ) == old(resampler).spec_converted()
                &&& m == combined.len() as int / block
                &&& (forall|i: int|
                    0 <= i < m ==> (#[trigger] newc[i]).0 == spec_full_chunks(combined, block)[i])
                &&& final(self).mono_src_acc@ == combined.skip(m * block)
                &&& final(self).mono_src_acc@.len() < RESAMPLE_BLOCK_FRAMES
                &&& final(sink).spec_received().take(old(sink).spec_received().len() as int)
                    == old(sink).spec_received()
                &&& n <= produced.len() as int / k
                &&& (forall|i: int|
                    0 <= i < n ==> (#[trigger] new[i]).0 == spec_full_chunks(produced, k)[i])
                &&& (forall|i: int| 0 <= i < n - 1 ==> (#[trigger] new[i]).1)
                &&& final(self).out_acc@ == produced.skip(n * k)
                &&& (!spec_stopped(new) ==> n == produced.len() as int / k && final(self).out_acc@.len() < target_chunk_frames_16k)
            }),
    {
        if frame.channels == 0 {
            return Err(Error::invalid_input(String::from_str("decoded audio had zero channels")));
        }
        let mono = downmix_to_mono(&frame.interleaved, frame.channels);
        proof {
            assert(mono@ =~= spec_downmix_of(*frame));
        }
        if frame.sample_rate == 16000 {
            let ghost produced = old(self).out_acc@ + mono@;
            self.out_acc.extend_from_slice(mono.as_slice());
            proof {
                assert(self.out_acc@ =~= produced);
            }
            let cont = deliver_full_chunks(&mut self.out_acc, target_chunk_frames_16k, sink)?;
            proof {
                let k = target_chunk_frames_16k as int;
                let new = sink.spec_received().skip(old(sink).spec_received().len() as int);
                if cont {
                    let n = new.len() as int;
                    assert(n == produced.len() as int / k);
                    vstd::arithmetic::div_mod::lemma_fundamental_div_mod(
                        produced.len() as int,
                        k,
                    );
                    vstd::arithmetic::div_mod::lemma_mod_bound(produced.len() as int, k);
                    assert(n * k == k * n) by (nonlinear_arith);
                    assert(self.out_acc@ == produced.skip(n * k));
                    assert(self.out_acc@.len() < target_chunk_frames_16k);
                }
            }
            return Ok(());
        }
        self.resampler_active = true;
        let ghost combined = old(self).mono_src_acc@ + mono@;
        self.mono_src_acc.extend_from_slice(mono.as_slice());
        proof {
            assert(self.mono_src_acc@ =~= combined);
        }
        let ghost base_conv = resampler.spec_converted();
        let ghost k = target_chunk_frames_16k as int;
        let ghost block = RESAMPLE_BLOCK_FRAMES as int;
        while self.mono_src_acc.len() >= RESAMPLE_BLOCK_FRAMES
            invariant
                target_chunk_frames_16k >= 1,
                self.resampler_active,
                self.inv(),
                frame.channels >= 1,
                frame.sample_rate != 16000,
                k == target_chunk_frames_16k as int,
                block == RESAMPLE_BLOCK_FRAMES as int,
                base_conv == old(resampler).spec_converted(),
                combined == old(self).mono_src_acc@ + spec_downmix_of(*frame),
                resampler.spec_converted().len() >= base_conv.len(),
                resampler.spec_converted().take(base_conv.len() as int) == base_conv,
                *sink == *old(sink),
                ({
                    let newc = resampler.spec_converted().skip(base_conv.len() as int);
                    let m = newc.len() as int;
                    &&& m * block <= combined.len()
                    &&& (forall|i: int|
                        0 <= i < m ==> (#[trigger] newc[i]).0 == spec_full_chunks(
                            combined,
                            block,
                        )[i])
                    &&& self.mono_src_acc@ == combined.skip(m * block)
                    &&& self.out_acc@ == old(self).out_acc@ + spec_outputs(newc)
                }),
            decreases self.mono_src_acc@.len(),
        {
            let ghost pre_conv = resampler.spec_converted();
            let ghost m_before = pre_conv.skip(base_conv.len() as int).len() as int;
            proof {
                assert(self.mono_src_acc@ == combined.skip(m_before * block));
                assert(combined.len() - m_before * block == self.mono_src_acc@.len());
                assert((m_before + 1) * block == m_before * block + block) by (nonlinear_arith);
                assert(m_before * block + block <= combined.len());
            }
            let mut rest = self.mono_src_acc.split_off(RESAMPLE_BLOCK_FRAMES);
            core::mem::swap(&mut self.mono_src_acc, &mut rest);
            let one_block = rest;
            proof {
                assert(one_block@ =~= combined.subrange(m_before * block, m_before * block
                    + block));
                assert(self.mono_src_acc@ =~= combined.skip((m_before + 1) * block));
                assert(m_before < combined.len() as int / block) by (nonlinear_arith)
                    requires
                        block >= 1,
                        0 <= m_before,
                        m_before * block + block <= combined.len(),
                ;
                assert(spec_full_chunks(combined, block)[m_before] == one_block@);
            }
            let out = resampler.resample_block(&one_block)?;
            self.out_acc.extend_from_slice(out.as_slice());
            proof {
                assert(resampler.spec_converted() == pre_conv.push((one_block@, out@)));
                assert(resampler.spec_converted().take(base_conv.len() as int) =~= base_conv);
                let newc = resampler.spec_converted().skip(base_conv.len() as int);
                assert(newc =~= pre_conv.skip(base_conv.len() as int).push((one_block@, out@)));
                assert(newc.drop_last() =~= pre_conv.skip(base_conv.len() as int));
                assert(spec_outputs(newc) == spec_outputs(newc.drop_last()) + out@);
                assert(self.out_acc@ =~= old(self).out_acc@ + spec_outputs(newc));
            }
        }
        let ghost newc = resampler.spec_converted().skip(base_conv.len() as int);
        let ghost produced = old(self).out_acc@ + spec_outputs(newc);
        proof {
            let m = newc.len() as int;
            assert(combined.len() - m * block == self.mono_src_acc@.len());
            lemma_fundamental_div_mod_converse(
                combined.len() as int,
                block,
                m,
                self.mono_src_acc@.len() as int,
            );
            assert(self.out_acc@ == produced);
        }
        let cont = deliver_full_chunks(&mut self.out_acc, target_chunk_frames_16k, sink)?;
        proof {
            let new = sink.spec_received().skip(old(sink).spec_received().len() as int);
            if cont {
                let n = new.len() as int;
                assert(n == produced.len() as int / k);
                vstd::arithmetic::div_mod::lemma_fundamental_div_mod(produced.len() as int, k);
                vstd::arithmetic::div_mod::lemma_mod_bound(produced.len() as int, k);
                assert(n * k == k * n) by (nonlinear_arith);
                assert(self.out_acc@ == produced.skip(n * k));
                assert(self.out_acc@.len() < target_chunk_frames_16k);
            }
        }
        Ok(())
    }

    /// Flush everything buffered at end of stream.
    ///
    /// A zero-padded tail of the source accumulator is converted to
    /// completion, the produced whole chunks are delivered, and — unless
    /// the sink asked to stop — the remaining samples leave as one final
    /// short chunk, emptying the pipeline. With nothing buffered at all
    /// this is a no-op.
    pub fn finalize<R: BlockResampler, S: SamplesSink>(
        &mut self,
        resampler: &mut R,
        target_chunk_frames_16k: usize,
        sink: &mut S,
    ) -> (r: Result<(), Error>)
        requires
            old(self).inv(),
            target_chunk_frames_16k >= 1,
            old(self).mono_src_acc@.len() + RESAMPLE_BLOCK_FRAMES <= usize::MAX,
        ensures
            final(self).inv(),
            old(self).mono_src_acc@.len() == 0 && old(self).out_acc@.len() == 0 ==> *final(self)
                == *old(self) && *final(sink) == *old(sink) && *final(resampler) == *old(resampler),
            final(self).resampler_active == old(self).resampler_active,
            r is Ok ==> ({
                let k = target_chunk_frames_16k as int;
                let block = RESAMPLE_BLOCK_FRAMES as int;
                let padded = spec_padded(old(self).mono_src_acc@);
                let newc = final(resampler).spec_converted().skip(
                    old(resampler).spec_converted().len() as int,
                );
                let m = newc.len() as int;
                let produced = old(self).out_acc@ + spec_outputs(newc);
                let new = final(sink).spec_received().skip(old(sink).spec_received().len() as int);
                let n = new.len() as int;
                let full_n = produced.len() as int / k;
                &&& final(self).mono_src_acc@.len() == 0
                &&& final(resampler).spec_converted().take(
                    old(resampler).spec_converted().len() as int,
                ) == old(resampler).spec_converted()
                &&& m == padded.len() as int / block
                &&& (forall|i: int|
                    0 <= i < m ==> (#[trigger] newc[i]).0 == spec_full_chunks(padded, block)[i])
                &&& final(sink).spec_received().take(old(sink).spec_received().len() as int)
                    == old(sink).spec_received()
                &&& n <= full_n + 1
                &&& (forall|i: int|
                    0 <= i < n && i < full_n ==> (#[trigger] new[i]).0 == spec_full_chunks(
                        produced,
                        k,
                    )[i])
                &&& (forall|i: int| 0 <= i < n - 1 ==> (#[trigger] new[i]).1)
                &&& (n == full_n + 1 ==> new[full_n].0 == produced.skip(full_n * k)
                    && produced.len() as int % k != 0 && final(self).out_acc@.len() == 0)
                &&& (n <= full_n ==> final(self).out_acc@ == produced.skip(n * k))
                &&& (!spec_stopped(new) ==> final(self).out_acc@.len() == 0 && (
                produced.len() as int % k == 0 ==> n == full_n) && (produced.len() as int % k != 0
                    ==> n == full_n + 1))
            }),
    {
        if self.mono_src_acc.len() == 0 && self.out_acc.len() == 0 {
            return Ok(());
        }
        let ghost base_conv = resampler.spec_converted();
        let ghost k = target_chunk_frames_16k as int;
        let ghost block = RESAMPLE_BLOCK_FRAMES as int;
        let ghost padded = spec_padded(old(self).mono_src_acc@);
        if self.mono_src_acc.len() > 0 {
            let rem: usize = self.mono_src_acc.len() % RESAMPLE_BLOCK_FRAMES;
            if rem != 0 {
                let want: usize = self.mono_src_acc.len() + (RESAMPLE_BLOCK_FRAMES - rem);
                self.mono_src_acc.resize(want, 0i64);
            }
            proof {
                assert(self.mono_src_acc@ =~= padded);
                assert(padded.len() as int % block == 0);
            }
        } else {
            proof {
                assert(padded =~= Seq::<i64>::empty());
            }
        }
        while self.mono_src_acc.len() >= RESAMPLE_BLOCK_FRAMES
            invariant
                target_chunk_frames_16k >= 1,
                self.inv(),
                k == target_chunk_frames_16k as int,
                block == RESAMPLE_BLOCK_FRAMES as int,
                self.resampler_active == old(self).resampler_active,
                old(self).mono_src_acc@.len() > 0 || old(self).out_acc@.len() > 0,
                base_conv == old(resampler).spec_converted(),
                padded == spec_padded(old(self).mono_src_acc@),
                padded.len() as int % block == 0,
                resampler.spec_converted().len() >= base_conv.len(),
                resampler.spec_converted().take(base_conv.len() as int) == base_conv,
                *sink == *old(sink),
                ({
                    let newc = resampler.spec_converted().skip(base_conv.len() as int);
                    let m = newc.len() as int;
                    &&& m * block <= padded.len()
                    &&& (forall|i: int|
                        0 <= i < m ==> (#[trigger] newc[i]).0 == spec_full_chunks(
                            padded,
                            block,
                        )[i])
                    &&& self.mono_src_acc@ == padded.skip(m * block)
                    &&& self.out_acc@ == old(self).out_acc@ + spec_outputs(newc)
                }),
            decreases self.mono_src_acc@.len(),
        {
            let ghost pre_conv = resampler.spec_converted();
            let ghost m_before = pre_conv.skip(base_conv.len() as int).len() as int;
            proof {
                assert(self.mono_src_acc@ == padded.skip(m_before * block));
                assert(padded.len() - m_before * block == self.mono_src_acc@.len());
                assert((m_before + 1) * block == m_before * block + block) by (nonlinear_arith);
                assert(m_before * block + block <= padded.len());
            }
            let mut rest = self.mono_src_acc.split_off(RESAMPLE_BLOCK_FRAMES);
            core::mem::swap(&mut self.mono_src_acc, &mut rest);
            let one_block = rest;
            proof {
                assert(one_block@ =~= padded.subrange(m_before * block, m_before * block + block));
                assert(self.mono_src_acc@ =~= padded.skip((m_before + 1) * block));
                assert(m_before < padded.len() as int / block) by (nonlinear_arith)
                    requires
                        block >= 1,
                        0 <= m_before,
                        m_before * block + block <= padded.len(),
                ;
                assert(spec_full_chunks(padded, block)[m_before] == one_block@);
            }
            let out = resampler.resample_block(&one_block)?;
            self.out_acc.extend_from_slice(out.as_slice());
            proof {
                assert(resampler.spec_converted() == pre_conv.push((one_block@, out@)));
                assert(resampler.spec_converted().take(base_conv.len() as int) =~= base_conv);
                let newc = resampler.spec_converted().skip(base_conv.len() as int);
                assert(newc =~= pre_conv.skip(base_conv.len() as int).push((one_block@, out@)));
                assert(newc.drop_last() =~= pre_conv.skip(base_conv.len() as int));
                assert(spec_outputs(newc) == spec_outputs(newc.drop_last()) + out@);
                assert(self.out_acc@ =~= old(self).out_acc@ + spec_outputs(newc));
            }
        }
        let ghost newc = resampler.spec_converted().skip(base_conv.len() as int);
        let ghost produced = old(self).out_acc@ + spec_outputs(newc);
        proof {
            let m = newc.len() as int;
            assert(self.mono_src_acc@.len() == 0) by {
                assert(self.mono_src_acc@ == padded.skip(m * block));
                assert(padded.len() - m * block == self.mono_src_acc@.len());
                if self.mono_src_acc@.len() > 0 {
                    vstd::arithmetic::div_mod::lemma_fundamental_div_mod_converse(
                        padded.len() as int - self.mono_src_acc@.len() as int,
                        block,
                        m,
                        0,
                    );
                    vstd::arithmetic::div_mod::lemma_mod_bound(padded.len() as int, block);
                }
            }
            lemma_fundamental_div_mod_converse(padded.len() as int, block, m, 0);
            assert(self.out_acc@ == produced);
        }
        let cont = deliver_full_chunks(&mut self.out_acc, target_chunk_frames_16k, sink)?;
        let ghost full_n = produced.len() as int / k;
        proof {
            let new = sink.spec_received().skip(old(sink).spec_received().len() as int);
            if cont {
                assert(new.len() as int == full_n);
                vstd::arithmetic::div_mod::lemma_fundamental_div_mod(produced.len() as int, k);
                vstd::arithmetic::div_mod::lemma_mod_bound(produced.len() as int, k);
            }
        }
        if cont && self.out_acc.len() > 0 {
            let ghost pre_recv = sink.spec_received();
            let mut tail: Vec<i64> = Vec::new();
            core::mem::swap(&mut tail, &mut self.out_acc);
            proof {
                assert(tail@ == produced.skip(full_n * k));
                assert(produced.len() as int % k != 0);
            }
            let _ = sink.on_samples(&tail)?;
            proof {
                let new = sink.spec_received().skip(old(sink).spec_received().len() as int);
                assert(sink.spec_received() =~~= pre_recv.push(sink.spec_received().last()));
                assert(pre_recv.len() >= old(sink).spec_received().len());
                assert(pre_recv.take(old(sink).spec_received().len() as int) == old(sink).spec_received());
                assert(sink.spec_received().take(old(sink).spec_received().len() as int)
                    =~~= old(sink).spec_received());
                assert(new =~~= pre_recv.skip(old(sink).spec_received().len() as int).push(
                    sink.spec_received().last(),
                ));
                assert(new.len() as int == full_n + 1);
                assert(new[full_n].0 == tail@);
                assert(forall|i: int|
                    0 <= i < full_n ==> #[trigger] new[i] == pre_recv.skip(
                        old(sink).spec_received().len() as int,
                    )[i]);
            }
        }
        Ok(())
    }
}

/// Chunks of a stream suffix are the later chunks of the stream, when the
/// suffix begins at a chunk boundary.
proof fn lemma_full_chunks_of_skip(s: Seq<i64>, k: int, n: int, j: int)
    requires
        k >= 1,
        0 <= n,
        n * k <= s.len(),
        0 <= j < s.skip(n * k).len() as int / k,
    ensures
        spec_full_chunks(s.skip(n * k), k)[j] == spec_full_chunks(s, k)[n + j],
{
    assert((j + 1) * k <= s.skip(n * k).len()) by (nonlinear_arith)
        requires
            k >= 1,
            0 <= j,
            j < s.skip(n * k).len() as int / k,
    ;
    assert(0 <= j * k && j * k + k <= s.skip(n * k).len() && (n + j) * k == n * k + j * k && (n + j)
        * k + k <= s.len()) by (nonlinear_arith)
        requires
            k >= 1,
            0 <= n,
            0 <= j,
            n * k <= s.len(),
            (j + 1) * k <= s.skip(n * k).len(),
            s.skip(n * k).len() == s.len() - n * k,
    ;
    assert(n + j < s.len() as int / k) by (nonlinear_arith)
        requires
            k >= 1,
            (n + j) * k + k <= s.len(),
            0 <= n + j,
    ;
    assert(s.skip(n * k).subrange(j * k, j * k + k) =~= s.subrange((n + j) * k, (n + j) * k + k));
}

/// Counting chunks across a suffix: deliveries from a suffix stay within
/// the stream's chunk count.
proof fn lemma_div_skip_bound(s: Seq<i64>, k: int, n: int, f: int)
    requires
        k >= 1,
        0 <= n,
        n * k <= s.len(),
        0 <= f <= s.skip(n * k).len() as int / k,
    ensures
        n + f <= s.len() as int / k,
{
    assert(f * k <= s.skip(n * k).len()) by (nonlinear_arith)
        requires
            k >= 1,
            0 <= f <= s.skip(n * k).len() as int / k,
    ;
    assert((n + f) * k <= s.len()) by (nonlinear_arith)
        requires
            k >= 1,
            f * k <= s.len() - n * k,
    ;
    assert(n + f <= s.len() as int / k) by (nonlinear_arith)
        requires
            k >= 1,
            (n + f) * k <= s.len(),
            0 <= n + f,
    ;
}

/// The mono samples a frame contributes after downmixing.
pub open spec fn spec_downmix_of(frame: DecodedFrame) -> Seq<i64> {
    Seq::new(
        (frame.interleaved@.len() as int / (frame.channels as int)) as nat,
        |f: int| spec_frame_mono(frame.interleaved@, frame.channels as int, f) as i64,
    )
}

} // verus!
