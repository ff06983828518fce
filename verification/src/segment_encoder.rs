//! The segment encoder surface: one closed set of output formats behind
//! a single write/close interface, and the batch-mode transcription path
//! that streams a whole buffer's segments through it.

use vstd::prelude::*;

use crate::error::Error;
use crate::incremental::{spec_emitted_matches, InferenceEngine};
use crate::json_array_encoder::JsonArrayEncoder;
use crate::opts::OutputType;
use crate::segments::{
    to_segment, wf_segment, RawSegment, Segment, MAX_ENCODABLE_CS, MAX_TIMESTAMP_CS,
};
use crate::vtt_encoder::VttEncoder;

verus! {

/// A segment encoder of either output format.
///
/// A tagged variant rather than an interface: the set of formats is
/// closed, and the write loop stays linear.
pub enum SegmentEncoder {
    /// Encodes segments as one JSON array.
    Json(JsonArrayEncoder),
    /// Encodes segments as WebVTT cues.
    Vtt(VttEncoder),
}

impl SegmentEncoder {
    /// The inner encoder's consistency.
    pub open spec fn inv(&self) -> bool {
        match self {
            SegmentEncoder::Json(e) => e.inv(),
            SegmentEncoder::Vtt(e) => e.inv(),
        }
    }

    /// The segments successfully written so far.
    pub open spec fn spec_written(&self) -> Seq<Segment> {
        match self {
            SegmentEncoder::Json(e) => e.written@,
            SegmentEncoder::Vtt(e) => e.written@,
        }
    }

    /// Whether the encoder has been closed.
    pub open spec fn spec_closed(&self) -> bool {
        match self {
            SegmentEncoder::Json(e) => e.closed,
            SegmentEncoder::Vtt(e) => e.closed,
        }
    }

    /// The output produced so far.
    pub open spec fn spec_output(&self) -> Seq<char> {
        match self {
            SegmentEncoder::Json(e) => e.out@,
            SegmentEncoder::Vtt(e) => e.out@,
        }
    }

    /// Create the encoder for an output format.
    pub fn new(output_type: OutputType) -> (r: SegmentEncoder)
        ensures
            r.inv(),
            !r.spec_closed(),
            r.spec_written() == Seq::<Segment>::empty(),
            r.spec_output() == Seq::<char>::empty(),
            r is Json <==> output_type == OutputType::Json,
    {
        match output_type {
            OutputType::Json => SegmentEncoder::Json(JsonArrayEncoder::new()),
            OutputType::Vtt => SegmentEncoder::Vtt(VttEncoder::new()),
        }
    }

    /// Write one segment in the encoder's format.
    ///
    /// Fails without changing anything once the encoder is closed.
    pub fn write_segment(&mut self, seg: &Segment) -> (r: Result<(), Error>)
        requires
            old(self).inv(),
            wf_segment(*seg),
        ensures
            final(self).inv(),
            (*final(self)) is Json <==> (*old(self)) is Json,
            old(self).spec_closed() ==> r is Err && *final(self) == *old(self),
            !old(self).spec_closed() ==> r is Ok && !final(self).spec_closed() && final(self).spec_written() == old(self).spec_written().push(*seg),
    {
        match self {
            SegmentEncoder::Json(e) => e.write_segment(seg),
            SegmentEncoder::Vtt(e) => e.write_segment(seg),
        }
    }

    /// Close the output document. Idempotent: a second close changes
    /// nothing.
    pub fn close(&mut self) -> (r: Result<(), Error>)
        requires
            old(self).inv(),
        ensures
            final(self).inv(),
            (*final(self)) is Json <==> (*old(self)) is Json,
            r is Ok,
            final(self).spec_closed(),
            final(self).spec_written() == old(self).spec_written(),
            old(self).spec_closed() ==> *final(self) == *old(self),
    {
        match self {
            SegmentEncoder::Json(e) => e.close(),
            SegmentEncoder::Vtt(e) => e.close(),
        }
    }

    /// The output produced so far, as a `String`.
    pub fn output_string(&self) -> (r: String)
        ensures
            r@ == self.spec_output(),
    {
        match self {
            SegmentEncoder::Json(e) => e.output_string(),
            SegmentEncoder::Vtt(e) => e.output_string(),
        }
    }
}

/// The language code a batch is written with: the hint, or `"und"`.
pub open spec fn spec_batch_lang(language: Option<String>) -> Seq<char> {
    match language {
        Some(l) => l@,
        None => "und"@,
    }
}

/// Write one whole batch of raw segments into the encoder, in order,
/// then close it.
///
/// Exactly the batch's sanitized segments are appended to what was
/// already written — each emitted segment the clamped, token-refined
/// form of its batch segment, carrying the given language code — and
/// the encoder ends closed. Never fails: an open in-memory encoder
/// refuses nothing.
pub fn write_batch(
    encoder: &mut SegmentEncoder,
    batch: &Vec<RawSegment>,
    language: &Option<String>,
) -> (r: Result<(), Error>)
    requires
        old(encoder).inv(),
        !old(encoder).spec_closed(),
    ensures
        final(encoder).inv(),
        (*final(encoder)) is Json <==> (*old(encoder)) is Json,
        r is Ok,
        final(encoder).spec_closed(),
        final(encoder).spec_written().len() == old(encoder).spec_written().len() + batch@.len(),
        final(encoder).spec_written().take(old(encoder).spec_written().len() as int) == old(
            encoder,
        ).spec_written(),
        forall|i: int|
            0 <= i < batch@.len() ==> spec_emitted_matches(
                #[trigger] final(encoder).spec_written()[old(encoder).spec_written().len() + i],
                batch@[i],
                spec_batch_lang(*language),
                0,
            ),
{
    let mut i: usize = 0;
    while i < batch.len()
        invariant
            encoder.inv(),
            !encoder.spec_closed(),
            (*encoder) is Json <==> (*old(encoder)) is Json,
            0 <= i <= batch@.len(),
            encoder.spec_written().len() == old(encoder).spec_written().len() + i,
            encoder.spec_written().take(old(encoder).spec_written().len() as int) == old(
                encoder,
            ).spec_written(),
            forall|j: int|
                0 <= j < i ==> spec_emitted_matches(
                    #[trigger] encoder.spec_written()[old(encoder).spec_written().len() + j],
                    batch@[j],
                    spec_batch_lang(*language),
                    0,
                ),
        decreases batch@.len() - i,
    {
        let lang: String = match language {
            Some(l) => l.clone(),
            None => String::from_str("und"),
        };
        let seg = to_segment(&batch[i], lang);
        proof {
            assert(MAX_TIMESTAMP_CS <= MAX_ENCODABLE_CS);
            assert(wf_segment(seg));
            assert(seg.language_code@ == spec_batch_lang(*language));
        }
        encoder.write_segment(&seg)?;
        proof {
            assert(encoder.spec_written().take(
                old(encoder).spec_written().len() as int,
            ) =~= old(encoder).spec_written());
            assert(spec_emitted_matches(seg, batch@[i as int], spec_batch_lang(*language), 0));
        }
        i = i + 1;
    }
    encoder.close()?;
    Ok(())
}

/// Run the engine once over a whole sample buffer and stream every
/// segment of the batch into the encoder, then close it.
///
/// On success the encoder is closed and holds exactly the engine's
/// sanitized batch after whatever was already written (the exact
/// relation is `write_batch`'s contract); an engine failure is returned
/// with the encoder untouched and still open.
pub fn write_segments<E: InferenceEngine>(
    engine: &mut E,
    encoder: &mut SegmentEncoder,
    samples: &Vec<i64>,
    language: &Option<String>,
) -> (r: Result<(), Error>)
    requires
        old(encoder).inv(),
        !old(encoder).spec_closed(),
    ensures
        final(encoder).inv(),
        (*final(encoder)) is Json <==> (*old(encoder)) is Json,
        r is Err ==> *final(encoder) == *old(encoder),
        r is Ok ==> final(encoder).spec_closed() && final(encoder).spec_written().len() >= old(encoder).spec_written().len(),
        forall|i: int|
            old(encoder).spec_written().len() <= i < final(encoder).spec_written().len()
                ==> wf_segment(#[trigger] final(encoder).spec_written()[i]),
{
    let batch = engine.infer(samples)?;
    let r = write_batch(encoder, &batch, language);
    proof {
        let base = old(encoder).spec_written().len() as int;
        assert forall|i: int| base <= i < encoder.spec_written().len() implies wf_segment(
            #[trigger] encoder.spec_written()[i],
        ) by {
            assert(spec_emitted_matches(
                encoder.spec_written()[base + (i - base)],
                batch@[i - base],
                spec_batch_lang(*language),
                0,
            ));
        }
    }
    r
}

} // verus!
