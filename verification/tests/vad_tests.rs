use scribble::error::Error;
use scribble::opts::VadPolicy;
use scribble::vad::{
    apply_non_speech_gain_in_place, speech_ranges_with_policy, to_speech_only_with_policy,
};
use scribble::vad_stream::{VadAnalyzer, VadStream, VAD_WINDOW_FRAMES};

fn default_policy() -> VadPolicy {
    VadPolicy {
        threshold_ppm: 500_000,
        pre_pad_ms: 250,
        post_pad_ms: 250,
        min_speech_ms: 250,
        gap_merge_ms: 300,
        non_speech_gain_ppm: 0,
    }
}

struct ScriptedAnalyzer {
    ranges: Vec<(u64, u64)>,
    calls: usize,
}

impl VadAnalyzer for ScriptedAnalyzer {
    fn speech_ranges_ms(&mut self, _window: &Vec<i64>) -> Result<Vec<(u64, u64)>, Error> {
        self.calls += 1;
        Ok(self.ranges.clone())
    }
}

#[test]
fn ranges_are_padded_and_clamped() {
    // One second of speech starting at zero, in a two-second buffer.
    let got = speech_ranges_with_policy(&vec![(0, 1000)], 32000, default_policy()).unwrap();
    // 250 ms of post-padding lands at 1.25 s = sample 20000.
    assert_eq!(got, vec![(0, 20000)]);
}

#[test]
fn short_speech_is_dropped() {
    // 100 ms is below the 250 ms minimum.
    assert!(speech_ranges_with_policy(&vec![(500, 600)], 32000, default_policy()).is_none());
}

#[test]
fn near_ranges_merge() {
    // The 100 ms gap (after padding) is within the 300 ms merge distance.
    let got =
        speech_ranges_with_policy(&vec![(0, 400), (500, 900)], 32000, default_policy()).unwrap();
    assert_eq!(got.len(), 1);
    assert_eq!(got[0].0, 0);
}

#[test]
fn gain_zero_mutes_only_non_speech() {
    let mut samples: Vec<i64> = vec![7; 100];
    apply_non_speech_gain_in_place(&mut samples, &vec![(10, 20)], 0);
    for (i, v) in samples.iter().enumerate() {
        if (10..20).contains(&i) {
            assert_eq!(*v, 7);
        } else {
            assert_eq!(*v, 0);
        }
    }
}

#[test]
fn gain_one_changes_nothing() {
    let mut samples: Vec<i64> = vec![-3, 5, 9, -11];
    let before = samples.clone();
    apply_non_speech_gain_in_place(&mut samples, &vec![(1, 2)], 1_000_000);
    assert_eq!(samples, before);
}

#[test]
fn fractional_gain_truncates_toward_zero() {
    let mut samples: Vec<i64> = vec![1_000_000, -1_000_000, 3];
    apply_non_speech_gain_in_place(&mut samples, &vec![], 100_000);
    assert_eq!(samples, vec![100_000, -100_000, 0]);
}

#[test]
fn no_qualifying_speech_leaves_the_buffer_untouched() {
    let mut samples: Vec<i64> = vec![42; 32000];
    let before = samples.clone();
    let found = to_speech_only_with_policy(&mut samples, &vec![], default_policy());
    assert!(!found);
    assert_eq!(samples, before);
}

#[test]
fn silence_only_windows_are_dropped_whole() {
    let mut analyzer = ScriptedAnalyzer { ranges: vec![], calls: 0 };
    let mut stream = VadStream::new(default_policy());
    let chunk: Vec<i64> = vec![0; VAD_WINDOW_FRAMES];
    stream.push(&mut analyzer, &chunk).unwrap();
    stream.flush(&mut analyzer).unwrap();
    assert_eq!(analyzer.calls, 1);
    assert!(stream.peek_remainder().is_none());
}

#[test]
fn approved_windows_reach_the_output_with_a_holdback_tail() {
    let mut analyzer = ScriptedAnalyzer { ranges: vec![(0, 2000)], calls: 0 };
    let mut stream = VadStream::new(default_policy());
    let chunk: Vec<i64> = vec![5; VAD_WINDOW_FRAMES];
    stream.push(&mut analyzer, &chunk).unwrap();

    // The 300 ms holdback (4800 samples) stays behind for the next window.
    let first = stream.peek_chunk(1000).expect("output available");
    assert_eq!(first.len(), 1000);
    stream.consume_chunk(1000);
    let rest = stream.peek_remainder().expect("more output");
    assert_eq!(rest.len(), VAD_WINDOW_FRAMES - 4800 - 1000);
    stream.consume_remainder();
    assert!(stream.peek_remainder().is_none());

    // The flush analyzes the held-back tail once more.
    stream.flush(&mut analyzer).unwrap();
    assert_eq!(analyzer.calls, 2);
    let tail = stream.peek_remainder().expect("tail flushed");
    assert_eq!(tail.len(), 4800);
}

#[test]
fn speechless_windows_are_forwarded_scaled_under_a_nonzero_gain() {
    let mut policy = default_policy();
    policy.non_speech_gain_ppm = 100_000;
    let mut analyzer = ScriptedAnalyzer { ranges: vec![], calls: 0 };
    let mut stream = VadStream::new(policy);
    let chunk: Vec<i64> = vec![1_000_000; VAD_WINDOW_FRAMES];
    stream.push(&mut analyzer, &chunk).unwrap();

    // The whole window is non-speech: forwarded at a tenth of full scale,
    // minus the holdback tail kept for the next window.
    let holdback = 4800;
    let first = stream.peek_remainder().expect("scaled audio queued");
    assert_eq!(first.len(), VAD_WINDOW_FRAMES - holdback);
    assert!(first.iter().all(|v| *v == 100_000));
}
