use scribble::error::Error;
use scribble::incremental::InferenceEngine;
use scribble::opts::OutputType;
use scribble::segment_encoder::{write_segments, SegmentEncoder};
use scribble::segments::{RawSegment, Segment};
use scribble::vad::to_speech_only;

struct OneBatchEngine {
    batch: Option<Vec<RawSegment>>,
}

impl InferenceEngine for OneBatchEngine {
    fn infer(&mut self, _window: &Vec<i64>) -> Result<Vec<RawSegment>, Error> {
        Ok(self.batch.take().unwrap_or_default())
    }
}

impl OneBatchEngine {
    fn new(texts: &[(i64, i64, &str)]) -> OneBatchEngine {
        OneBatchEngine {
            batch: Some(
                texts
                    .iter()
                    .map(|(s, e, t)| RawSegment {
                        start_cs: *s,
                        end_cs: *e,
                        text: t.to_string(),
                        tokens: vec![],
                        next_speaker_turn: false,
                    })
                    .collect(),
            ),
        }
    }
}

#[test]
fn write_segments_streams_the_whole_batch_as_json() {
    let mut engine = OneBatchEngine::new(&[(0, 120, "hello"), (120, 200, "world")]);
    let mut encoder = SegmentEncoder::new(OutputType::Json);
    let samples: Vec<i64> = vec![0; 16000];
    write_segments(&mut engine, &mut encoder, &samples, &None).unwrap();

    let text = encoder.output_string();
    let value: serde_json::Value = serde_json::from_str(&text).expect("valid JSON");
    assert_eq!(value.as_array().expect("array").len(), 2);

    // The encoder is closed afterwards: further writes are refused.
    let extra = Segment {
        start_cs: 0,
        end_cs: 1,
        text: "late".to_string(),
        tokens: vec![],
        language_code: "und".to_string(),
        next_speaker_turn: false,
    };
    assert!(encoder.write_segment(&extra).is_err());
}

#[test]
fn write_segments_streams_the_whole_batch_as_vtt() {
    let mut engine = OneBatchEngine::new(&[(0, 120, "hello")]);
    let mut encoder = SegmentEncoder::new(OutputType::Vtt);
    let samples: Vec<i64> = vec![0; 16000];
    write_segments(&mut engine, &mut encoder, &samples, &Some("en".to_string())).unwrap();

    let text = encoder.output_string();
    assert_eq!(text, "WEBVTT\n\n00:00:00.000 --> 00:00:01.200\nhello\n\n");
}

#[test]
fn to_speech_only_applies_the_default_policy() {
    let mut samples: Vec<i64> = vec![9; 32000];
    // One second of speech at the start qualifies under the defaults.
    let found = to_speech_only(&mut samples, &vec![(0, 1000)]);
    assert!(found);
    // Speech plus its post-padding is untouched; the rest is muted.
    assert_eq!(samples[0], 9);
    assert_eq!(samples[19_999], 9);
    assert_eq!(samples[20_000], 0);
    assert_eq!(samples[31_999], 0);
}
