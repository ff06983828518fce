//! A channel adapter that buffers incoming chunks until enough items are
//! available, processes them, and yields the processed batch.
//!
//! The channel receive blocks on the other thread, so one call of
//! [`PipeReceiver::poll_step`] performs at most one receive; a driver
//! loops over it — yielding, retrying on [`PipeStep::Pending`], and
//! stopping on the disconnect error — to get the blocking behavior of a
//! plain receiver.

use vstd::prelude::*;

verus! {

#[verifier::external_type_specification]
#[verifier::external_body]
#[verifier::reject_recursive_types(T)]
pub struct ExReceiver<T>(std::sync::mpsc::Receiver<T>);

#[verifier::external_type_specification]
#[verifier::external_body]
pub struct ExIoError(std::io::Error);

/// Relies on `std::sync::mpsc::Receiver::recv`: blocks until a value is
/// sent (`Some`) or every sender is dropped (`None`). What arrives, and
/// when, is the sending thread's choice.
#[verifier::external_body]
fn mpsc_recv<T>(rx: &std::sync::mpsc::Receiver<Vec<T>>) -> (r: Option<Vec<T>>) {
    rx.recv().ok()
}

/// Relies on `std::io::Error::new`: builds the broken-pipe error that
/// reports a disconnected, fully drained pipe.
#[verifier::external_body]
fn broken_pipe_error() -> (r: std::io::Error) {
    std::io::Error::new(std::io::ErrorKind::BrokenPipe, "pipe receiver disconnected")
}

/// What one poll of the pipe produced.
pub enum PipeStep<T> {
    /// A processed, non-empty batch.
    Yield(Vec<T>),
    /// Not enough input yet; poll again.
    Pending,
}

/// A receiver adapter that pulls `Vec<T>` chunks from a channel until at
/// least `min_items` are buffered (or the channel closes), processes the
/// buffered input, and yields the processed batch.
#[verifier::reject_recursive_types(T)]
pub struct PipeReceiver<T, F> where F: Fn(&[T]) -> Result<Vec<T>, std::io::Error> {
    /// The channel the decode producer sends chunks into.
    pub rx: std::sync::mpsc::Receiver<Vec<T>>,
    /// Processes a buffered batch; may change its size.
    pub process_items: F,
    /// How many items to buffer before processing.
    pub min_items: usize,
    /// Items received and not yet processed.
    pub in_buf: Vec<T>,
    /// Whether the channel has disconnected.
    pub eof: bool,
}

impl<T, F> PipeReceiver<T, F> where F: Fn(&[T]) -> Result<Vec<T>, std::io::Error> {
    /// The processing function accepts any batch.
    pub open spec fn wf(&self) -> bool {
        forall|s: &[T]| #[trigger] call_requires(self.process_items, (s,))
    }

    /// Create a pipe receiver over a channel.
    pub fn new(
        rx: std::sync::mpsc::Receiver<Vec<T>>,
        min_items: usize,
        process_items: F,
    ) -> (r: PipeReceiver<T, F>)
        requires
            forall|s: &[T]| #[trigger] call_requires(process_items, (s,)),
        ensures
            r.wf(),
            r.min_items == min_items,
            r.in_buf@.len() == 0,
            !r.eof,
    {
        PipeReceiver { rx, process_items, min_items, in_buf: Vec::new(), eof: false }
    }

    /// Whether `out` is a possible output of the processing function on
    /// an input that begins with `prefix` — exactly `prefix` when
    /// `exact` is set.
    pub open spec fn spec_processed_from(
        &self,
        prefix: Seq<T>,
        exact: bool,
        out: Result<Vec<T>, std::io::Error>,
    ) -> bool {
        exists|s: &[T]|
            (if exact {
                s@ == prefix
            } else {
                s@.len() >= prefix.len() && s@.subrange(0, prefix.len() as int) == prefix
            }) && #[trigger] call_ensures(self.process_items, (s,), out)
    }

    /// Advance the pipe by one step: receive at most one chunk, and when
    /// enough input is buffered (or the channel has closed), process and
    /// yield it.
    ///
    /// A disconnected channel with nothing buffered is the broken-pipe
    /// error; a processing error is returned as it is. `Pending` always
    /// means more input is still expected. Whatever is yielded is the
    /// processing function's own output on the buffered input — exactly
    /// the old buffer when no receive was due, else the old buffer
    /// extended by one received chunk.
    pub fn poll_step(&mut self) -> (r: Result<PipeStep<T>, std::io::Error>)
        requires
            old(self).wf(),
        ensures
            final(self).wf(),
            final(self).min_items == old(self).min_items,
            final(self).process_items == old(self).process_items,
            old(self).eof ==> final(self).eof,
            old(self).eof && old(self).in_buf@.len() == 0 ==> r is Err,
            r matches Ok(PipeStep::Yield(v)) ==> v@.len() >= 1 && final(self).in_buf@.len() == 0
                && old(self).spec_processed_from(
                old(self).in_buf@,
                false,
                Ok::<Vec<T>, std::io::Error>(v),
            ),
            r matches Ok(PipeStep::Pending) ==> !final(self).eof && final(self).in_buf@.len()
                <= final(self).min_items,
            (old(self).eof || old(self).in_buf@.len() >= old(self).min_items) && !(old(self).eof
                && old(self).in_buf@.len() == 0) ==> ({
                &&& (r matches Ok(PipeStep::Yield(v)) ==> old(self).spec_processed_from(
                    old(self).in_buf@,
                    true,
                    Ok::<Vec<T>, std::io::Error>(v),
                ))
                &&& (r matches Ok(PipeStep::Pending) ==> exists|p: Vec<T>|
                    p@.len() == 0 && #[trigger] old(self).spec_processed_from(
                        old(self).in_buf@,
                        true,
                        Ok::<Vec<T>, std::io::Error>(p),
                    ))
                &&& (r matches Err(e) ==> (final(self).eof && final(self).in_buf@.len() == 0)
                    || old(self).spec_processed_from(
                    old(self).in_buf@,
                    true,
                    Err::<Vec<T>, std::io::Error>(e),
                ))
            }),
    {
        let mut received: bool = false;
        if !self.eof && self.in_buf.len() < self.min_items {
            match mpsc_recv(&self.rx) {
                Some(mut chunk) => {
                    self.in_buf.append(&mut chunk);
                    received = true;
                },
                None => {
                    self.eof = true;
                },
            }
        }
        proof {
            assert(self.in_buf@.subrange(0, old(self).in_buf@.len() as int) =~= old(
                self,
            ).in_buf@);
        }
        if self.in_buf.len() == 0 && self.eof {
            return Err(broken_pipe_error());
        }
        if self.in_buf.len() >= self.min_items || self.eof {
            let mut input: Vec<T> = Vec::new();
            core::mem::swap(&mut input, &mut self.in_buf);
            proof {
                if !received {
                    assert(input@ == old(self).in_buf@);
                }
                assert(input@.subrange(0, old(self).in_buf@.len() as int) == old(self).in_buf@);
            }
            let input_slice: &[T] = input.as_slice();
            let result = (self.process_items)(input_slice);
            proof {
                assert(input_slice@ == input@);
                assert(call_ensures(old(self).process_items, (input_slice,), result));
            }
            let ghost gres = result;
            proof {
                if !received {
                    assert(old(self).spec_processed_from(old(self).in_buf@, true, gres)) by {
                        assert(input_slice@ == old(self).in_buf@ && call_ensures(
                            old(self).process_items,
                            (input_slice,),
                            gres,
                        ));
                    }
                }
                assert(old(self).spec_processed_from(old(self).in_buf@, false, gres)) by {
                    assert(input_slice@.len() >= old(self).in_buf@.len() && input_slice@.subrange(
                        0,
                        old(self).in_buf@.len() as int,
                    ) == old(self).in_buf@ && call_ensures(
                        old(self).process_items,
                        (input_slice,),
                        gres,
                    ));
                }
            }
            let processed = match result {
                Ok(p) => p,
                Err(e) => {
                    return Err(e);
                },
            };
            if processed.len() == 0 {
                if self.eof {
                    return Err(broken_pipe_error());
                }
                return Ok(PipeStep::Pending);
            }
            return Ok(PipeStep::Yield(processed));
        }
        Ok(PipeStep::Pending)
    }
}

} // verus!
