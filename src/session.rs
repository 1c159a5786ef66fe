use vstd::prelude::*;
use crate::codec::HandshakeError;
use crate::progress::Progress;

verus! {

/// Size of the buffer each copy worker reads into.
pub const CHUNK_SIZE: usize = 65536;

/// Which end of a transfer a session is.
#[derive(Clone, Copy, Debug, PartialEq, Eq, Structural)]
pub enum Role {
    Sender,
    Receiver,
}

/// Why a session failed.
#[derive(Clone, Copy, Debug, PartialEq, Eq, Structural)]
pub enum SessionError {
    /// The header could not be sent or read.
    Handshake(HandshakeError),
    /// A file or socket operation failed.
    Io,
    /// A copy worker stopped without finishing its work.
    Worker,
    /// The stream ended before the announced number of bytes had been moved.
    ShortPayload,
    /// More bytes arrived than the header announced.
    OversizedPayload,
}

/// Where a session stands.
#[derive(Clone, Copy, Debug, PartialEq, Eq, Structural)]
pub enum SessionState {
    /// Accepted or connected, waiting for a permit.
    Admitted,
    /// Holding a permit, exchanging the header.
    Handshaking,
    /// Copying the payload.
    Streaming,
    Completed,
    Failed(SessionError),
}

/// Whether a session in state `s` has ended.
pub open spec fn is_terminal(s: SessionState) -> bool {
    s matches SessionState::Completed || s matches SessionState::Failed(_)
}

/// What a session ends in once its last copy worker has stopped: the first
/// error a worker met, or else completion exactly when every announced byte
/// was moved.
pub open spec fn outcome(first_error: Option<SessionError>, moved: u64, total: u64) -> SessionState {
    match first_error {
        Some(e) => SessionState::Failed(e),
        None => if moved == total {
            SessionState::Completed
        } else {
            SessionState::Failed(SessionError::ShortPayload)
        },
    }
}

/// The earlier of two errors: `a` when there is one, else `b`.
pub open spec fn first_of(a: Option<SessionError>, b: Option<SessionError>) -> Option<SessionError> {
    match a {
        Some(e) => Some(e),
        None => b,
    }
}

/// One transfer over one connection, from admission to its end.
///
/// The copy workers report each chunk they wrote and then their own end; the
/// session ends when the last of them has stopped.
pub struct Session {
    role: Role,
    state: SessionState,
    progress: Progress,
    workers_left: usize,
    first_error: Option<SessionError>,
}

impl Session {
    pub closed spec fn spec_role(&self) -> Role {
        self.role
    }

    pub closed spec fn spec_state(&self) -> SessionState {
        self.state
    }

    pub closed spec fn spec_progress(&self) -> Progress {
        self.progress
    }

    /// Copy workers that have not stopped yet.
    pub closed spec fn spec_workers_left(&self) -> nat {
        self.workers_left as nat
    }

    /// The first error a copy worker met, or a chunk beyond the announced size.
    pub closed spec fn spec_first_error(&self) -> Option<SessionError> {
        self.first_error
    }

    pub closed spec fn wf(&self) -> bool {
        &&& self.progress.wf()
        &&& self.state == SessionState::Completed ==> self.progress.value == self.progress.total
        &&& self.state == SessionState::Streaming ==> self.workers_left > 0
        &&& (self.state == SessionState::Admitted || self.state == SessionState::Handshaking)
            ==> self.progress.value == 0
    }

    pub fn new(role: Role) -> (r: Session)
        ensures
            r.wf(),
            r.spec_role() == role,
            r.spec_state() == SessionState::Admitted,
            r.spec_progress().value == 0,
            r.spec_progress().total == 0,
    {
        Session {
            role,
            state: SessionState::Admitted,
            progress: Progress::new(0),
            workers_left: 0,
            first_error: None,
        }
    }

    pub fn role(&self) -> (r: Role)
        ensures
            r == self.spec_role(),
    {
        self.role
    }

    pub fn state(&self) -> (r: SessionState)
        ensures
            r == self.spec_state(),
    {
        self.state
    }

    /// Bytes moved so far.
    pub fn transferred(&self) -> (r: u64)
        ensures
            r == self.spec_progress().value,
    {
        self.progress.value
    }

    /// The size the handshake announced (0 before it).
    pub fn file_size(&self) -> (r: u64)
        ensures
            r == self.spec_progress().total,
    {
        self.progress.total
    }

    pub fn is_finished(&self) -> (r: bool)
        ensures
            r == is_terminal(self.spec_state()),
    {
        match self.state {
            SessionState::Completed => true,
            SessionState::Failed(_) => true,
            _ => false,
        }
    }

    /// The session got its permit. Only an admitted session moves on, to the
    /// handshake; in any other state nothing changes and `false` comes back.
    pub fn grant_permit(&mut self) -> (r: bool)
        requires
            old(self).wf(),
        ensures
            final(self).wf(),
            grant_step(*old(self), *final(self), r),
    {
        if self.state == SessionState::Admitted {
            self.state = SessionState::Handshaking;
            true
        } else {
            false
        }
    }

    /// The handshake is done and announced `file_size` bytes; `workers` copy
    /// workers start on the payload. With no worker at all the session ends
    /// at once. Outside the handshake nothing changes and `false` comes back.
    pub fn start_streaming(&mut self, file_size: u64, workers: usize) -> (r: bool)
        requires
            old(self).wf(),
        ensures
            final(self).wf(),
            start_step(*old(self), *final(self), file_size, workers, r),
    {
        if self.state != SessionState::Handshaking {
            return false;
        }
        self.progress = Progress::new(file_size);
        self.workers_left = workers;
        self.first_error = None;
        if workers == 0 {
            self.state = self.finish();
        } else {
            self.state = SessionState::Streaming;
        }
        true
    }

    fn finish(&self) -> (r: SessionState)
        requires
            self.progress.wf(),
        ensures
            r == outcome(self.first_error, self.progress.value, self.progress.total),
    {
        match self.first_error {
            Some(e) => SessionState::Failed(e),
            None => if self.progress.value == self.progress.total {
                SessionState::Completed
            } else {
                SessionState::Failed(SessionError::ShortPayload)
            },
        }
    }

    /// A worker wrote `n` bytes to the sink. While streaming they are
    /// counted; a chunk that would pass the announced size is not counted and
    /// is kept as the session's error instead.
    pub fn chunk_moved(&mut self, n: u64)
        requires
            old(self).wf(),
        ensures
            final(self).wf(),
            chunk_step(*old(self), *final(self), n),
    {
        if self.state != SessionState::Streaming {
            return;
        }
        if !self.progress.advance(n) {
            if self.first_error.is_none() {
                self.first_error = Some(SessionError::OversizedPayload);
            }
        }
    }

    /// A worker stopped, with the error it met if any. When it was the last
    /// one the session ends: failed with the first error seen, else completed
    /// exactly when every announced byte was moved.
    pub fn worker_done(&mut self, error: Option<SessionError>)
        requires
            old(self).wf(),
        ensures
            final(self).wf(),
            done_step(*old(self), *final(self), error),
    {
        if self.state != SessionState::Streaming {
            return;
        }
        if self.first_error.is_none() {
            self.first_error = error;
        }
        self.workers_left = self.workers_left - 1;
        if self.workers_left == 0 {
            self.state = self.finish();
        }
    }

    /// An operation outside the copy workers failed. A session that has not
    /// ended fails with `e`; one that has ended stays as it was.
    pub fn fail(&mut self, e: SessionError)
        requires
            old(self).wf(),
        ensures
            final(self).wf(),
            fail_step(*old(self), *final(self), e),
    {
        if !self.is_finished() {
            self.state = SessionState::Failed(e);
        }
    }
}

/// How the permit changes a session: an admitted session moves on to the
/// handshake; any other stays as it was, and `r` tells which happened.
pub open spec fn grant_step(a: Session, b: Session, r: bool) -> bool {
    &&& r == (a.spec_state() == SessionState::Admitted)
    &&& r ==> b.spec_state() == SessionState::Handshaking && b.spec_role() == a.spec_role()
        && b.spec_progress() == a.spec_progress()
    &&& !r ==> b == a
}

/// How the end of the handshake changes a session: a session in the
/// handshake starts streaming `file_size` bytes with `workers` workers, or
/// ends at once when there is no worker; any other stays as it was.
pub open spec fn start_step(a: Session, b: Session, file_size: u64, workers: usize, r: bool) -> bool {
    &&& r == (a.spec_state() == SessionState::Handshaking)
    &&& b.spec_role() == a.spec_role()
    &&& b.spec_progress().value >= a.spec_progress().value
    &&& r ==> b.spec_progress() == (Progress { value: 0, total: file_size })
    &&& r ==> b.spec_workers_left() == workers
    &&& r ==> b.spec_first_error() is None
    &&& r ==> b.spec_state() == (if workers == 0 {
        outcome(None, 0, file_size)
    } else {
        SessionState::Streaming
    })
    &&& !r ==> b == a
}

/// How a written chunk of `n` bytes changes a session: while streaming the
/// bytes are counted, unless they would pass the announced size, which is
/// then kept as the session's error; in any other state nothing changes.
pub open spec fn chunk_step(a: Session, b: Session, n: u64) -> bool {
    &&& b.spec_role() == a.spec_role()
    &&& b.spec_state() == a.spec_state()
    &&& b.spec_workers_left() == a.spec_workers_left()
    &&& b.spec_progress().total == a.spec_progress().total
    &&& b.spec_progress().value >= a.spec_progress().value
    &&& a.spec_state() == SessionState::Streaming ==> {
        let p = a.spec_progress();
        if n <= p.total - p.value {
            &&& b.spec_progress().value == p.value + n
            &&& b.spec_first_error() == a.spec_first_error()
        } else {
            &&& b.spec_progress().value == p.value
            &&& b.spec_first_error() == first_of(
                a.spec_first_error(),
                Some(SessionError::OversizedPayload),
            )
        }
    }
    &&& a.spec_state() != SessionState::Streaming ==> b == a
}

/// How the end of a worker, with the error it met if any, changes a
/// streaming session: the first error is kept, and after the last worker the
/// session ends as `outcome` says. In any other state nothing changes.
pub open spec fn done_step(a: Session, b: Session, error: Option<SessionError>) -> bool {
    &&& b.spec_role() == a.spec_role()
    &&& b.spec_progress() == a.spec_progress()
    &&& a.spec_state() == SessionState::Streaming ==> {
        let err = first_of(a.spec_first_error(), error);
        &&& b.spec_first_error() == err
        &&& b.spec_workers_left() == a.spec_workers_left() - 1
        &&& b.spec_state() == if a.spec_workers_left() == 1 {
            outcome(err, a.spec_progress().value, a.spec_progress().total)
        } else {
            SessionState::Streaming
        }
    }
    &&& a.spec_state() != SessionState::Streaming ==> b == a
}

/// How a failure `e` outside the workers changes a session: one that has
/// not ended fails with `e`; one that has ended stays as it was.
pub open spec fn fail_step(a: Session, b: Session, e: SessionError) -> bool {
    &&& b.spec_role() == a.spec_role()
    &&& b.spec_progress() == a.spec_progress()
    &&& b.spec_state() == if is_terminal(a.spec_state()) {
        a.spec_state()
    } else {
        SessionState::Failed(e)
    }
}

/// No step of a session lowers the count of bytes moved.
pub proof fn lemma_count_never_drops(
    a: Session,
    b: Session,
    r: bool,
    file_size: u64,
    workers: usize,
    n: u64,
    error: Option<SessionError>,
    e: SessionError,
)
    requires
        grant_step(a, b, r) || start_step(a, b, file_size, workers, r) || chunk_step(a, b, n)
            || done_step(a, b, error) || fail_step(a, b, e),
    ensures
        b.spec_progress().value >= a.spec_progress().value,
{
}

/// A session that completed has counted exactly the size its handshake
/// announced.
pub proof fn lemma_completed_counts_all(s: Session)
    requires
        s.wf(),
        s.spec_state() == SessionState::Completed,
    ensures
        s.spec_progress().value == s.spec_progress().total,
{
}

} // verus!
