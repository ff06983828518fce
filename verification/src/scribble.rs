//! Orchestration decisions for a transcription run.
//!
//! The run itself spans two threads — a decode producer and an inference
//! consumer — and several teardown steps that can each fail: the backend
//! stream's finish, the decoder thread's outcome, and the encoder's
//! close. The merge policy here is the one the orchestrator applies: the
//! operation ordered earliest in the shutdown sequence wins as the
//! primary error, later errors are attached as context, and a decoder
//! thread panic is always reported as a distinct top-level error.

use vstd::prelude::*;

use crate::error::Error;

verus! {

/// How the decoder thread ended.
pub enum DecodeOutcome {
    /// The thread ran to completion.
    Completed,
    /// The thread returned an error.
    Failed(Error),
    /// The thread panicked.
    Panicked,
}

/// The message a decoder panic is reported with.
pub open spec fn spec_panic_message() -> Seq<char> {
    "decoder thread panicked"@
}

/// Attach a later error's message to a primary error as context,
/// preserving the primary error's kind.
pub fn attach_context(primary: Error, note: &Error) -> (r: Error)
    ensures
        r.spec_message() == primary.spec_message() + ": "@ + note.spec_message(),
        primary is InvalidInput <==> r is InvalidInput,
        primary is Io <==> r is Io,
        primary is Decode <==> r is Decode,
        primary is Backend <==> r is Backend,
        primary is Other <==> r is Other,
{
    let suffix = note.message();
    match primary {
        Error::InvalidInput { message } => Error::InvalidInput {
            message: message.concat(": ").concat(suffix.as_str()),
        },
        Error::Io { message } => Error::Io { message: message.concat(": ").concat(suffix.as_str()) },
        Error::Decode { message } => Error::Decode {
            message: message.concat(": ").concat(suffix.as_str()),
        },
        Error::Backend { message } => Error::Backend {
            message: message.concat(": ").concat(suffix.as_str()),
        },
        Error::Other { message } => Error::Other {
            message: message.concat(": ").concat(suffix.as_str()),
        },
    }
}

/// Merge the backend stream's finish result with the decoder thread's
/// outcome.
///
/// The inference failure is primary, with the decoder error attached as
/// context when both failed; a decoder panic is always reported as its
/// own top-level error.
pub fn merge_finish_and_decode(finish: Result<(), Error>, decoder: DecodeOutcome) -> (r: Result<
    (),
    Error,
>)
    ensures
        match decoder {
            DecodeOutcome::Panicked => r matches Err(e) && e is Other && e.spec_message()
                == spec_panic_message(),
            DecodeOutcome::Completed => match finish {
                Ok(()) => r is Ok,
                Err(e) => r == Err::<(), Error>(e),
            },
            DecodeOutcome::Failed(d) => match finish {
                Ok(()) => r == Err::<(), Error>(d),
                Err(e) => r matches Err(m) && m.spec_message() == e.spec_message() + ": "@
                    + d.spec_message() && (e is Backend <==> m is Backend) && (e is Decode <==> m
                    is Decode) && (e is Io <==> m is Io) && (e is InvalidInput <==> m
                    is InvalidInput) && (e is Other <==> m is Other),
            },
        },
{
    match decoder {
        DecodeOutcome::Panicked => Err(Error::Other {
            message: String::from_str("decoder thread panicked"),
        }),
        DecodeOutcome::Completed => finish,
        DecodeOutcome::Failed(d) => match finish {
            Ok(()) => Err(d),
            Err(e) => Err(attach_context(e, &d)),
        },
    }
}

/// Merge the run's result with the encoder's close result.
///
/// The run error is primary, with the close error attached as context;
/// a close failure after a clean run is reported on its own.
pub fn merge_run_and_close(run: Result<(), Error>, close: Result<(), Error>) -> (r: Result<
    (),
    Error,
>)
    ensures
        match (run, close) {
            (Ok(()), Ok(())) => r is Ok,
            (Ok(()), Err(c)) => r == Err::<(), Error>(c),
            (Err(e), Ok(())) => r == Err::<(), Error>(e),
            (Err(e), Err(c)) => r matches Err(m) && m.spec_message() == e.spec_message() + ": "@
                + c.spec_message(),
        },
{
    match (run, close) {
        (Ok(()), Ok(())) => Ok(()),
        (Ok(()), Err(c)) => Err(c),
        (Err(e), Ok(())) => Err(e),
        (Err(e), Err(c)) => Err(attach_context(e, &c)),
    }
}

} // verus!
