use scribble::error::Error;
use scribble::incremental::{
    next_infer_threshold, segment_end_samples, BufferedSegmentTranscriber, InferenceEngine,
    Progress,
};
use scribble::segments::{RawSegment, RawToken, Segment};

/// Yields scripted batches, one per inference call, recording the window
/// each call received.
struct ScriptedEngine {
    batches: Vec<Vec<RawSegment>>,
    calls: Vec<usize>,
}

impl ScriptedEngine {
    fn new(batches: Vec<Vec<RawSegment>>) -> ScriptedEngine {
        ScriptedEngine { batches, calls: vec![] }
    }
}

impl InferenceEngine for ScriptedEngine {
    fn infer(&mut self, window: &Vec<i64>) -> Result<Vec<RawSegment>, Error> {
        self.calls.push(window.len());
        if self.batches.is_empty() {
            Ok(vec![])
        } else {
            Ok(self.batches.remove(0))
        }
    }
}

fn raw(start_cs: i64, end_cs: i64, text: &str) -> RawSegment {
    RawSegment { start_cs, end_cs, text: text.to_string(), tokens: vec![], next_speaker_turn: false }
}

#[test]
fn one_sample_short_of_min_window_runs_backend_once_at_eos() {
    let mut engine = ScriptedEngine::new(vec![vec![raw(0, 100, "hi")]]);
    let mut t = BufferedSegmentTranscriber::new(1, false, None);
    let mut out: Vec<Segment> = Vec::new();

    let chunk: Vec<i64> = vec![0; 15999];
    t.on_samples(&mut engine, &chunk, &mut out).unwrap();
    assert!(engine.calls.is_empty());
    assert!(out.is_empty());

    t.finish(&mut engine, &mut out).unwrap();
    assert_eq!(engine.calls.len(), 1);
    assert_eq!(engine.calls[0], 15999);
    assert_eq!(out.len(), 1);
    assert_eq!(out[0].text, "hi");
    assert_eq!(out[0].language_code, "und");
}

#[test]
fn incremental_offset_shifts_later_batches() {
    let mut t = BufferedSegmentTranscriber::new(1, true, None);
    let mut out: Vec<Segment> = Vec::new();
    t.samples = vec![0; 32000];

    t.apply_batch(&vec![raw(0, 120, "hello")], false, &mut out).unwrap();
    assert_eq!(t.advanced_samples, 19200);
    t.apply_batch(&vec![raw(0, 80, "world")], false, &mut out).unwrap();

    let times: Vec<(u64, u64)> = out.iter().map(|s| (s.start_cs, s.end_cs)).collect();
    assert_eq!(times, vec![(0, 120), (120, 200)]);
    assert_eq!(out[0].text, "hello");
    assert_eq!(out[1].text, "world");
    assert_eq!(t.advanced_samples, 19200 + 80 * 160);
}

#[test]
fn live_batches_hold_back_the_tentative_last_segment() {
    let mut t = BufferedSegmentTranscriber::new(1, false, None);
    let mut out: Vec<Segment> = Vec::new();
    t.samples = vec![0; 32000];

    let p = t
        .apply_batch(&vec![raw(0, 100, "first"), raw(100, 180, "second")], false, &mut out)
        .unwrap();
    assert!(matches!(p, Progress::Advanced));
    assert_eq!(out.len(), 1);
    assert_eq!(out[0].text, "first");
    // The window advanced past the end of the last *emitted* segment.
    assert_eq!(t.advanced_samples, 100 * 160);
}

#[test]
fn empty_batches_back_off_without_emitting() {
    let mut t = BufferedSegmentTranscriber::new(1, false, None);
    let mut out: Vec<Segment> = Vec::new();
    t.samples = vec![0; 17000];

    let p = t.apply_batch(&vec![], false, &mut out).unwrap();
    assert!(matches!(p, Progress::NoOp));
    assert!(out.is_empty());
    assert_eq!(t.no_progress_runs, 1);
    assert_eq!(t.next_infer_at_samples, 17000 + 16000);
}

#[test]
fn next_infer_threshold_backs_off_exponentially_up_to_the_cap() {
    assert_eq!(next_infer_threshold(16000, 16000, 480000, 1), 32000);
    assert_eq!(next_infer_threshold(16000, 16000, 480000, 2), 48000);
    assert_eq!(next_infer_threshold(16000, 16000, 480000, 3), 80000);
    assert_eq!(next_infer_threshold(16000, 16000, 480000, 5), 272000);
    assert_eq!(next_infer_threshold(16000, 16000, 480000, 9), 272000);
    assert_eq!(next_infer_threshold(479000, 16000, 480000, 2), 480000);
}

#[test]
fn segment_end_samples_clamps_into_the_window() {
    assert!(segment_end_samples(-1, 100).is_err());
    assert_eq!(segment_end_samples(0, 100).unwrap(), 1);
    assert_eq!(segment_end_samples(1, 100_000).unwrap(), 160);
    assert_eq!(segment_end_samples(1_000_000, 100).unwrap(), 100);
}

#[test]
fn advances_account_for_every_finalized_sample() {
    let mut engine = ScriptedEngine::new(vec![
        vec![raw(0, 50, "a"), raw(50, 90, "b")],
        vec![raw(0, 60, "c")],
    ]);
    let mut t = BufferedSegmentTranscriber::new(1, false, None);
    let mut out: Vec<Segment> = Vec::new();
    let chunk: Vec<i64> = vec![0; 20000];
    t.on_samples(&mut engine, &chunk, &mut out).unwrap();
    t.finish(&mut engine, &mut out).unwrap();

    // Emitted segments are sorted and on the global timeline.
    let starts: Vec<u64> = out.iter().map(|s| s.start_cs).collect();
    let mut sorted = starts.clone();
    sorted.sort();
    assert_eq!(starts, sorted);
    for s in &out {
        assert!(s.start_cs <= s.end_cs);
    }
    assert_eq!(t.samples.len(), 0);
    assert_eq!(t.head, 0);
}

#[test]
fn token_timing_refines_segment_times() {
    let mut t = BufferedSegmentTranscriber::new(1, true, None);
    let mut out: Vec<Segment> = Vec::new();
    t.samples = vec![0; 32000];

    let tok = |t0: i64, t1: i64, text: &str| RawToken {
        start_cs: t0,
        end_cs: t1,
        text: text.to_string(),
        probability_ppm: 500_000,
    };
    let mut seg = raw(0, 150, "hi there");
    seg.tokens = vec![tok(-1, -1, "[_BEG_]"), tok(10, 40, "hi"), tok(40, 90, " there")];
    t.apply_batch(&vec![seg], false, &mut out).unwrap();

    // Segment timing comes from the plain timed tokens; the advance uses
    // the backend's segment-level end timestamp.
    assert_eq!((out[0].start_cs, out[0].end_cs), (10, 90));
    assert_eq!(t.advanced_samples, 150 * 160);
    // The special marker token was clamped to zero time.
    assert_eq!(out[0].tokens[0].start_cs, 0);
}
