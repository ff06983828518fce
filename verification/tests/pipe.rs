use std::io;
use std::sync::mpsc;

use scribble::pipe_reader::{PipeReceiver, PipeStep};

/// Drive the pipe like a blocking receiver: poll until it yields or the
/// disconnect error arrives.
fn recv<T, F>(pr: &mut PipeReceiver<T, F>) -> io::Result<Vec<T>>
where
    F: Fn(&[T]) -> io::Result<Vec<T>>,
{
    loop {
        match pr.poll_step()? {
            PipeStep::Yield(v) => return Ok(v),
            PipeStep::Pending => continue,
        }
    }
}

#[test]
fn yields_processed_once_min_items_reached() {
    let (tx, rx) = mpsc::sync_channel::<Vec<u32>>(8);
    tx.send(vec![1, 2]).unwrap();
    tx.send(vec![3]).unwrap();
    drop(tx);

    let mut pr =
        PipeReceiver::new(rx, 3, |items: &[u32]| Ok(items.iter().map(|v| v * 2).collect()));
    let out = recv(&mut pr).unwrap();
    assert_eq!(out, vec![2, 4, 6]);
    let err = recv(&mut pr).unwrap_err();
    assert_eq!(err.kind(), io::ErrorKind::BrokenPipe);
}

#[test]
fn flushes_remainder_on_close() {
    let (tx, rx) = mpsc::sync_channel::<Vec<u32>>(8);
    tx.send(vec![1, 2]).unwrap();
    drop(tx);

    let mut pr = PipeReceiver::new(rx, 10, |items: &[u32]| Ok(items.to_vec()));
    let out = recv(&mut pr).unwrap();
    assert_eq!(out, vec![1, 2]);
    let err = recv(&mut pr).unwrap_err();
    assert_eq!(err.kind(), io::ErrorKind::BrokenPipe);
}
