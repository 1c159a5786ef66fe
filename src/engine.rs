use vstd::prelude::*;
use crate::session::SessionError;

verus! {

/// What a copy worker does after one read from the source.
#[derive(Clone, Copy, Debug, PartialEq, Eq, Structural)]
pub enum WorkerAction {
    /// Write the first `n` bytes of the buffer to the sink, then read again.
    Write(usize),
    /// Stop: at the end of the stream with no error, or with the error met.
    Stop(Option<SessionError>),
}

/// Decides a copy worker's next step from the result of its read into a
/// buffer of `buf_len` bytes: `None` for a failed read, else the count read.
/// An empty read is the end of the stream.
pub fn after_read(read: Option<usize>, buf_len: usize) -> (r: WorkerAction)
    ensures
        r == match read {
            None => WorkerAction::Stop(Some(SessionError::Io)),
            Some(n) => if n == 0 {
                WorkerAction::Stop(None)
            } else if n > buf_len {
                WorkerAction::Stop(Some(SessionError::Io))
            } else {
                WorkerAction::Write(n)
            },
        },
{
    match read {
        None => WorkerAction::Stop(Some(SessionError::Io)),
        Some(n) => if n == 0 {
            WorkerAction::Stop(None)
        } else if n > buf_len {
            WorkerAction::Stop(Some(SessionError::Io))
        } else {
            WorkerAction::Write(n)
        },
    }
}

} // verus!
