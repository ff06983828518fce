//! Streaming speech-to-text core: PCM normalization, voice-activity
//! filtering, incremental segment transcription, and segment encoders.
//!
//! The heavy numeric collaborators (codec decode, the sinc resampler, the
//! ASR and VAD models) are reached through small engine traits; everything
//! that moves, windows, finalizes and encodes audio is verified here.
//!
//! Samples are fixed-point PCM: an `i64` holding millionths of full scale,
//! so one unit is 1e-6 of a full-scale sample. Timestamps are integer
//! centiseconds, the native unit of the speech backends.

pub mod audio_pipeline;
pub mod backend;
pub mod error;
pub mod incremental;
pub mod opts;
pub mod json_array_encoder;
pub mod pipe_reader;
pub mod scribble;
pub mod segment_encoder;
pub mod segments;
pub mod silero;
pub mod textfmt;
pub mod vad;
pub mod vad_stream;
pub mod vtt_encoder;
