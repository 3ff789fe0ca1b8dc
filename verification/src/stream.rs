//! The drain-read discipline: a connection is read without blocking until
//! the socket reports that it would block, accumulating the byte count. The
//! reads themselves belong to the socket's owner; the decision after each
//! read attempt is `read_step`.

use vstd::prelude::*;

verus! {

/// Why a drain read of a connection failed.
#[derive(Clone, Copy, PartialEq, Eq, Structural, Debug)]
pub enum ReadError {
    /// The peer closed the stream: a read attempt returned zero bytes.
    UnexpectedEof,
    /// One drain brought more bytes than the buffer holds.
    TooLargePayload,
    /// A read attempt reported a failure of its own.
    ReadFailed,
}

/// The outcome of one non-blocking read attempt, as the socket's owner saw
/// it.
#[derive(Clone, Copy, PartialEq, Eq, Structural, Debug)]
pub enum ReadEvent {
    /// The attempt returned this many bytes; zero means the peer closed.
    Data(usize),
    /// Nothing is buffered right now: the drain is complete.
    WouldBlock,
    /// The attempt failed outright.
    Failed,
}

/// What the drain does after one read attempt.
#[derive(Clone, Copy, PartialEq, Eq, Structural, Debug)]
pub enum ReadStep {
    /// Keep reading; this many bytes are drained so far.
    Continue(usize),
    /// The socket is drained: the whole read succeeds with this many bytes.
    Done(usize),
    /// The whole read fails with this error.
    Fail(ReadError),
}

/// The read primitive the event loop requires of a connection: drain
/// whatever is currently buffered into `buf` without ever blocking, and
/// report how many bytes arrived, or why the connection must go.
pub trait StreamReader {
    fn try_read_until_block(&self, buf: &mut Vec<u8>) -> Result<usize, ReadError>;
}

/// Decide how a drain read proceeds once one read attempt has finished,
/// given that `total` bytes of a buffer holding `cap` were already drained:
/// zero bytes mean the peer closed; a count that would push the total past
/// the buffer is an oversized payload; "would block" ends the drain with
/// what was gathered; any other failure ends the whole read.
pub fn read_step(total: usize, cap: usize, event: ReadEvent) -> (r: ReadStep)
    requires
        total <= cap,
    ensures
        match event {
            ReadEvent::Data(n) => {
                &&& n == 0 ==> r == ReadStep::Fail(ReadError::UnexpectedEof)
                &&& n > 0 && total + n <= cap ==> r == ReadStep::Continue((total + n) as usize)
                &&& n > 0 && total + n > cap ==> r == ReadStep::Fail(ReadError::TooLargePayload)
            },
            ReadEvent::WouldBlock => r == ReadStep::Done(total),
            ReadEvent::Failed => r == ReadStep::Fail(ReadError::ReadFailed),
        },
{
    match event {
        ReadEvent::Data(n) => {
            if n == 0 {
                ReadStep::Fail(ReadError::UnexpectedEof)
            } else if n <= cap - total {
                ReadStep::Continue(total + n)
            } else {
                ReadStep::Fail(ReadError::TooLargePayload)
            }
        },
        ReadEvent::WouldBlock => ReadStep::Done(total),
        ReadEvent::Failed => ReadStep::Fail(ReadError::ReadFailed),
    }
}

} // verus!
