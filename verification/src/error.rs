//! The crate-wide error type.
//!
//! Each variant names one failure domain of the pipeline; the message is the
//! human-readable detail. Outer layers that need to carry a source error
//! chain keep their own wrapper around this type.

use vstd::prelude::*;

verus! {

/// What went wrong, and where in the pipeline.
#[derive(Debug)]
pub enum Error {
    /// Bad configuration or malformed metadata (zero channels, unknown
    /// output format, missing VAD model).
    InvalidInput { message: String },
    /// Reader or writer failure.
    Io { message: String },
    /// Demux probe, codec decode, resampler or audio-pipeline failure.
    Decode { message: String },
    /// Model inference failure, or a missing or unknown model key.
    Backend { message: String },
    /// A wrapped external error carrying a rendered message chain.
    Other { message: String },
}

impl Error {
    /// Build an `InvalidInput` error from a message.
    pub fn invalid_input(message: String) -> (r: Error)
        ensures
            r == (Error::InvalidInput { message }),
    {
        Error::InvalidInput { message }
    }

    /// The message carried by this error, whatever its variant.
    pub fn message(&self) -> (r: &String)
        ensures
            r@ == self.spec_message(),
    {
        match self {
            Error::InvalidInput { message } => message,
            Error::Io { message } => message,
            Error::Decode { message } => message,
            Error::Backend { message } => message,
            Error::Other { message } => message,
        }
    }

    /// The message carried by this error, as a specification value.
    pub open spec fn spec_message(&self) -> Seq<char> {
        match self {
            Error::InvalidInput { message } => message@,
            Error::Io { message } => message@,
            Error::Decode { message } => message@,
            Error::Backend { message } => message@,
            Error::Other { message } => message@,
        }
    }
}

} // verus!
