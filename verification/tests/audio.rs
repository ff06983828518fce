use scribble::audio_pipeline::{
    downmix_to_mono, AudioPipeline, BlockResampler, DecodedFrame, SamplesSink,
    RESAMPLE_BLOCK_FRAMES,
};
use scribble::error::Error;

/// One sample unit is a millionth of full scale.
const UNIT: i64 = 1_000_000;

struct CollectSink {
    chunks: Vec<Vec<i64>>,
    keep_going: bool,
}

impl SamplesSink for CollectSink {
    fn on_samples(&mut self, samples_16k_mono: &Vec<i64>) -> Result<bool, Error> {
        self.chunks.push(samples_16k_mono.clone());
        Ok(self.keep_going)
    }
}

/// Records the blocks it is fed and passes them through unchanged.
struct PassThroughResampler {
    blocks: Vec<Vec<i64>>,
}

impl BlockResampler for PassThroughResampler {
    fn resample_block(&mut self, block: &Vec<i64>) -> Result<Vec<i64>, Error> {
        self.blocks.push(block.clone());
        Ok(block.clone())
    }
}

fn mono_frame(rate: u32, samples: Vec<i64>) -> DecodedFrame {
    DecodedFrame { sample_rate: rate, channels: 1, interleaved: samples }
}

#[test]
fn downmix_stereo_averages_channels() {
    let interleaved = vec![UNIT, 3 * UNIT, -UNIT, UNIT];
    let mono = downmix_to_mono(&interleaved, 2);
    assert_eq!(mono, vec![2 * UNIT, 0]);
}

#[test]
fn downmix_mono_is_identity() {
    let samples = vec![5, -7, 0, 123_456, i64::MIN, i64::MAX];
    assert_eq!(downmix_to_mono(&samples, 1), samples);
}

#[test]
fn chunk_early_stop_delivers_exactly_one_chunk() {
    let mut pipeline = AudioPipeline::new();
    let mut resampler = PassThroughResampler { blocks: vec![] };
    let mut sink = CollectSink { chunks: vec![], keep_going: false };
    let frame = mono_frame(16000, (0..10).map(|v| v as i64).collect());
    pipeline.push_decoded_and_emit(&mut resampler, &frame, 4, &mut sink).unwrap();
    assert_eq!(sink.chunks.len(), 1);
    assert_eq!(sink.chunks[0].len(), 4);
    assert!(resampler.blocks.is_empty());
}

#[test]
fn fast_path_is_identity_on_mono_16k() {
    let mut pipeline = AudioPipeline::new();
    let mut resampler = PassThroughResampler { blocks: vec![] };
    let mut sink = CollectSink { chunks: vec![], keep_going: true };
    let samples: Vec<i64> = (0..10_000).map(|v| v as i64 - 5000).collect();
    let frame = mono_frame(16000, samples.clone());
    pipeline.push_decoded_and_emit(&mut resampler, &frame, 1024, &mut sink).unwrap();
    pipeline.finalize(&mut resampler, 1024, &mut sink).unwrap();
    // Every chunk is exactly the target size; only the final flush may
    // deliver the one short residual chunk.
    let n = sink.chunks.len();
    assert!(sink.chunks[..n - 1].iter().all(|c| c.len() == 1024));
    assert_eq!(sink.chunks[n - 1].len(), 10_000 % 1024);
    let delivered: Vec<i64> = sink.chunks.concat();
    assert_eq!(delivered, samples);
    assert!(resampler.blocks.is_empty());
}

#[test]
fn early_stop_does_not_end_the_stream() {
    let mut pipeline = AudioPipeline::new();
    let mut resampler = PassThroughResampler { blocks: vec![] };
    let mut sink = CollectSink { chunks: vec![], keep_going: false };
    let frame = mono_frame(16000, (0..10).map(|v| v as i64).collect());
    pipeline.push_decoded_and_emit(&mut resampler, &frame, 4, &mut sink).unwrap();
    // The next frame is still processed: the stop applied to one call only.
    pipeline.push_decoded_and_emit(&mut resampler, &frame, 4, &mut sink).unwrap();
    assert_eq!(sink.chunks.len(), 2);
}

#[test]
fn zero_channel_frames_are_refused() {
    let mut pipeline = AudioPipeline::new();
    let mut resampler = PassThroughResampler { blocks: vec![] };
    let mut sink = CollectSink { chunks: vec![], keep_going: true };
    let frame = DecodedFrame { sample_rate: 16000, channels: 0, interleaved: vec![] };
    let err = pipeline.push_decoded_and_emit(&mut resampler, &frame, 4, &mut sink).unwrap_err();
    assert!(matches!(err, Error::InvalidInput { .. }));
}

#[test]
fn resampler_receives_whole_blocks_and_finalize_pads_the_tail() {
    let mut pipeline = AudioPipeline::new();
    let mut resampler = PassThroughResampler { blocks: vec![] };
    let mut sink = CollectSink { chunks: vec![], keep_going: true };
    let samples: Vec<i64> = (0..5000).map(|v| v as i64 + 1).collect();
    let frame = mono_frame(48000, samples.clone());
    pipeline.push_decoded_and_emit(&mut resampler, &frame, 1024, &mut sink).unwrap();
    assert_eq!(resampler.blocks.len(), 2);
    assert!(resampler.blocks.iter().all(|b| b.len() == RESAMPLE_BLOCK_FRAMES));

    pipeline.finalize(&mut resampler, 1024, &mut sink).unwrap();
    assert_eq!(resampler.blocks.len(), 3);
    let tail = &resampler.blocks[2];
    assert_eq!(tail.len(), RESAMPLE_BLOCK_FRAMES);
    let residual = 5000 - 2 * RESAMPLE_BLOCK_FRAMES;
    assert_eq!(&tail[..residual], &samples[2 * RESAMPLE_BLOCK_FRAMES..]);
    assert!(tail[residual..].iter().all(|v| *v == 0));

    let delivered: Vec<i64> = sink.chunks.concat();
    let padded: Vec<i64> = resampler.blocks.concat();
    assert_eq!(delivered, padded);
}
