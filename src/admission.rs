use vstd::prelude::*;
use crate::gate::Gate;
use crate::session::{
    chunk_step, done_step, fail_step, grant_step, is_terminal, start_step, Role, Session,
    SessionError, SessionState,
};

verus! {

/// Whether a session in state `s` holds a permit: it has been let in and has
/// not ended.
pub open spec fn holds_permit(s: SessionState) -> bool {
    s == SessionState::Handshaking || s == SessionState::Streaming
}

/// Whether a slot of the table holds a session that holds a permit.
pub open spec fn slot_active(slot: Option<Session>) -> bool {
    slot matches Some(s) && holds_permit(s.spec_state())
}

/// Whether a slot is free or holds a well-formed session.
pub open spec fn slot_wf(slot: Option<Session>) -> bool {
    slot matches Some(s) ==> s.wf()
}

/// Whether a slot holds a session that has ended.
pub open spec fn slot_ended(slot: Option<Session>) -> bool {
    slot matches Some(s) && is_terminal(s.spec_state())
}

/// Whether a slot holds a new session of `role` that waits for its permit.
pub open spec fn slot_fresh(slot: Option<Session>, role: Role) -> bool {
    slot matches Some(s) && s.spec_state() == SessionState::Admitted && s.spec_role() == role
}

/// Number of sessions in `s` that hold a permit.
pub open spec fn count_active(s: Seq<Option<Session>>) -> nat
    decreases s.len(),
{
    if s.len() == 0 {
        0
    } else {
        count_active(s.drop_last()) + if slot_active(s.last()) {
            1nat
        } else {
            0nat
        }
    }
}

proof fn lemma_count_update(s: Seq<Option<Session>>, i: int, x: Option<Session>)
    requires
        0 <= i < s.len(),
    ensures
        count_active(s.update(i, x)) == count_active(s) - (if slot_active(s[i]) {
            1int
        } else {
            0int
        }) + (if slot_active(x) {
            1int
        } else {
            0int
        }),
    decreases s.len(),
{
    let t = s.update(i, x);
    if i < s.len() - 1 {
        assert(t.drop_last() =~= s.drop_last().update(i, x));
        lemma_count_update(s.drop_last(), i, x);
    } else {
        assert(t.drop_last() =~= s.drop_last());
    }
}

/// Whether a session in state `s` holds a permit.
pub fn is_active(s: SessionState) -> (r: bool)
    ensures
        r == holds_permit(s),
{
    match s {
        SessionState::Handshaking => true,
        SessionState::Streaming => true,
        _ => false,
    }
}

/// Sessions and their gate.
///
/// Each session that holds a permit took it from this gate when it was let
/// in, and gives it back the moment it ends, whichever way it ends. `open`
/// takes a free slot for a new session, and `close` frees the slot again
/// once its session has ended; until then the number stays with it.
pub struct Admission {
    gate: Gate,
    sessions: Vec<Option<Session>>,
}

impl Admission {
    pub closed spec fn spec_gate(&self) -> Gate {
        self.gate
    }

    pub closed spec fn spec_sessions(&self) -> Seq<Option<Session>> {
        self.sessions@
    }

    pub closed spec fn wf(&self) -> bool {
        &&& self.gate.wf()
        &&& forall|i: int| 0 <= i < self.sessions@.len() ==> slot_wf(#[trigger] self.sessions@[i])
        &&& count_active(self.sessions@) == self.gate.spec_held()
    }

    /// Whether only slot `id` may differ between `old_a` and `self`.
    pub open spec fn only_changed(&self, old_a: Admission, id: usize) -> bool {
        &&& self.spec_gate().spec_capacity() == old_a.spec_gate().spec_capacity()
        &&& self.spec_sessions() == old_a.spec_sessions().update(
            id as int,
            self.spec_sessions()[id as int],
        )
    }

    pub fn new(capacity: usize) -> (r: Admission)
        ensures
            r.wf(),
            r.spec_gate().spec_capacity() == capacity,
            r.spec_sessions().len() == 0,
    {
        Admission { gate: Gate::new(capacity), sessions: Vec::new() }
    }

    /// Number of slots, taken or free.
    pub fn len(&self) -> (r: usize)
        ensures
            r == self.spec_sessions().len(),
    {
        self.sessions.len()
    }

    /// Sessions that hold a permit now.
    pub fn active(&self) -> (r: usize)
        requires
            self.wf(),
        ensures
            r == count_active(self.spec_sessions()),
    {
        self.gate.held()
    }

    /// The state of the session in slot `id`, if the slot is taken.
    pub fn state(&self, id: usize) -> (r: Option<SessionState>)
        ensures
            r == if id < self.spec_sessions().len() {
                match self.spec_sessions()[id as int] {
                    Some(s) => Some(s.spec_state()),
                    None => None,
                }
            } else {
                None
            },
    {
        if id < self.sessions.len() {
            match &self.sessions[id] {
                Some(s) => Some(s.state()),
                None => None,
            }
        } else {
            None
        }
    }

    /// Registers a new session, waiting for its permit, and returns its slot:
    /// the first free one, else a new one at the end.
    pub fn open(&mut self, role: Role) -> (r: usize)
        requires
            old(self).wf(),
            old(self).spec_sessions().len() < usize::MAX,
        ensures
            final(self).wf(),
            final(self).spec_gate() == old(self).spec_gate(),
            r < final(self).spec_sessions().len(),
            slot_fresh(final(self).spec_sessions()[r as int], role),
            r < old(self).spec_sessions().len() ==> old(self).spec_sessions()[r as int] is None
                && final(self).only_changed(*old(self), r),
            r == old(self).spec_sessions().len() ==> final(self).spec_sessions().len() == r + 1,
            r == old(self).spec_sessions().len() ==> final(self).spec_sessions().subrange(0, r as int)
                == old(self).spec_sessions(),
            forall|j: int| 0 <= j < r ==> old(self).spec_sessions()[j] is Some,
    {
        let fresh = Session::new(role);
        let mut i: usize = 0;
        while i < self.sessions.len()
            invariant
                i <= self.sessions@.len(),
                *self == *old(self),
                self.wf(),
                fresh.wf(),
                fresh.spec_state() == SessionState::Admitted,
                fresh.spec_role() == role,
                forall|j: int| 0 <= j < i ==> self.sessions@[j] is Some,
            decreases self.sessions@.len() - i,
        {
            if self.sessions[i].is_none() {
                let ghost before = self.sessions@;
                let ghost g = Some(fresh);
                proof {
                    lemma_count_update(before, i as int, g);
                }
                self.sessions.set(i, Some(fresh));
                assert(self.sessions@ == before.update(i as int, g));
                assert forall|j: int| 0 <= j < self.sessions@.len() implies slot_wf(
                    #[trigger] self.sessions@[j],
                ) by {
                    if j != i {
                        assert(self.sessions@[j] == before[j]);
                    }
                }
                return i;
            }
            i = i + 1;
        }
        proof {
            assert(self.sessions@.push(Some(fresh)).drop_last() =~= self.sessions@);
        }
        self.sessions.push(Some(fresh));
        assert(self.sessions@.subrange(0, i as int) =~= old(self).sessions@);
        i
    }

    /// Gives up slot `id` once its session has ended, so that `open` may use
    /// it again. A free slot, or one whose session runs, stays as it is.
    pub fn close(&mut self, id: usize) -> (r: bool)
        requires
            old(self).wf(),
        ensures
            final(self).wf(),
            r == (id < old(self).spec_sessions().len() && slot_ended(
                old(self).spec_sessions()[id as int],
            )),
            r ==> final(self).spec_gate() == old(self).spec_gate(),
            r ==> final(self).spec_sessions() == old(self).spec_sessions().update(id as int, None),
            !r ==> *final(self) == *old(self),
    {
        if id >= self.sessions.len() {
            return false;
        }
        let ended = match &self.sessions[id] {
            Some(s) => s.is_finished(),
            None => false,
        };
        if !ended {
            return false;
        }
        let ghost before = self.sessions@;
        proof {
            lemma_count_update(before, id as int, None);
        }
        self.sessions.set(id, None);
        assert forall|j: int| 0 <= j < self.sessions@.len() implies slot_wf(
            #[trigger] self.sessions@[j],
        ) by {
            if j != id {
                assert(self.sessions@[j] == before[j]);
            }
        }
        true
    }

    /// Whether slot `id` holds a session.
    pub open spec fn spec_is_open(&self, id: usize) -> bool {
        id < self.spec_sessions().len() && self.spec_sessions()[id as int] is Some
    }

    /// The session in slot `id`, which must be taken.
    pub open spec fn spec_session(&self, id: usize) -> Session {
        self.spec_sessions()[id as int]->Some_0
    }

    /// Whether slot `id` holds a session.
    pub fn is_open(&self, id: usize) -> (r: bool)
        ensures
            r == self.spec_is_open(id),
    {
        id < self.sessions.len() && self.sessions[id].is_some()
    }

    /// Takes the session out of slot `id`, which must be taken.
    fn take(&mut self, id: usize) -> (s: Session)
        requires
            old(self).spec_is_open(id),
        ensures
            Some(s) == old(self).sessions@[id as int],
            final(self).sessions@ == old(self).sessions@.update(id as int, None),
            final(self).gate == old(self).gate,
    {
        self.sessions[id].take().unwrap()
    }

    /// Puts `s` back into slot `id` after one step that turned `before[id]`
    /// into `s`, giving back its permit when that step ended it.
    fn put_back(&mut self, id: usize, s: Session, was: bool, Ghost(before): Ghost<Seq<Option<Session>>>)
        requires
            old(self).gate.wf(),
            id < before.len(),
            before[id as int] is Some,
            old(self).sessions@ == before.update(id as int, None),
            count_active(before) == old(self).gate.spec_held(),
            forall|i: int| 0 <= i < before.len() ==> slot_wf(#[trigger] before[i]),
            s.wf(),
            was == slot_active(before[id as int]),
            was || !holds_permit(s.spec_state()),
        ensures
            final(self).wf(),
            final(self).sessions@ == before.update(id as int, Some(s)),
            final(self).gate.spec_capacity() == old(self).gate.spec_capacity(),
    {
        let now = is_active(s.state());
        proof {
            lemma_count_update(before, id as int, Some(s));
        }
        let ghost g = Some(s);
        self.sessions.set(id, Some(s));
        assert(self.sessions@ =~= before.update(id as int, g));
        assert forall|j: int| 0 <= j < self.sessions@.len() implies slot_wf(
            #[trigger] self.sessions@[j],
        ) by {
            if j != id {
                assert(self.sessions@[j] == before[j]);
            }
        }
        proof {
            if was && !now {
                assert(count_active(before) >= 1);
            }
        }
        if was && !now {
            self.gate.release();
        }
    }

    /// Lets the session in slot `id` in when it waits for a permit and one is
    /// free; `false` means it must wait (or was not waiting, or the slot is
    /// free), and nothing changed.
    pub fn try_admit(&mut self, id: usize) -> (r: bool)
        requires
            old(self).wf(),
        ensures
            final(self).wf(),
            r == (old(self).spec_is_open(id) && old(self).spec_session(id).spec_state()
                == SessionState::Admitted && old(self).spec_gate().spec_held() < old(
                self,
            ).spec_gate().spec_capacity()),
            r ==> final(self).only_changed(*old(self), id) && final(self).spec_is_open(id)
                && grant_step(old(self).spec_session(id), final(self).spec_session(id), true),
            r ==> final(self).spec_gate().spec_held() == old(self).spec_gate().spec_held() + 1,
            !r ==> *final(self) == *old(self),
    {
        if !self.is_open(id) || self.gate.available() == 0 {
            return false;
        }
        let waiting = match &self.sessions[id] {
            Some(s) => s.state() == SessionState::Admitted,
            None => false,
        };
        if !waiting {
            return false;
        }
        let ghost before = self.sessions@;
        let mut s = self.take(id);
        let taken = self.gate.try_acquire();
        let granted = s.grant_permit();
        proof {
            lemma_count_update(before, id as int, Some(s));
        }
        self.sessions.set(id, Some(s));
        assert forall|j: int| 0 <= j < self.sessions@.len() implies slot_wf(
            #[trigger] self.sessions@[j],
        ) by {
            if j != id {
                assert(self.sessions@[j] == before[j]);
            }
        }
        assert(self.sessions@ == before.update(id as int, self.sessions@[id as int]));
        taken && granted
    }

    /// The end of the handshake of the session in slot `id`, as
    /// `Session::start_streaming`; a free slot stays free and gives `false`.
    pub fn start_streaming(&mut self, id: usize, file_size: u64, workers: usize) -> (r: bool)
        requires
            old(self).wf(),
        ensures
            final(self).wf(),
            !old(self).spec_is_open(id) ==> !r && *final(self) == *old(self),
            old(self).spec_is_open(id) ==> final(self).only_changed(*old(self), id)
                && final(self).spec_is_open(id) && start_step(
                old(self).spec_session(id),
                final(self).spec_session(id),
                file_size,
                workers,
                r,
            ),
    {
        if !self.is_open(id) {
            return false;
        }
        let ghost before = self.sessions@;
        let mut s = self.take(id);
        let was = is_active(s.state());
        let r = s.start_streaming(file_size, workers);
        self.put_back(id, s, was, Ghost(before));
        r
    }

    /// A chunk written by a worker of the session in slot `id`, as
    /// `Session::chunk_moved`; a free slot stays free.
    pub fn chunk_moved(&mut self, id: usize, n: u64)
        requires
            old(self).wf(),
        ensures
            final(self).wf(),
            !old(self).spec_is_open(id) ==> *final(self) == *old(self),
            old(self).spec_is_open(id) ==> final(self).only_changed(*old(self), id)
                && final(self).spec_is_open(id) && chunk_step(
                old(self).spec_session(id),
                final(self).spec_session(id),
                n,
            ),
    {
        if !self.is_open(id) {
            return;
        }
        let ghost before = self.sessions@;
        let mut s = self.take(id);
        let was = is_active(s.state());
        s.chunk_moved(n);
        self.put_back(id, s, was, Ghost(before));
    }

    /// The end of a worker of the session in slot `id`, as
    /// `Session::worker_done`; the permit goes back when the session ends. A
    /// free slot stays free.
    pub fn worker_done(&mut self, id: usize, error: Option<SessionError>)
        requires
            old(self).wf(),
        ensures
            final(self).wf(),
            !old(self).spec_is_open(id) ==> *final(self) == *old(self),
            old(self).spec_is_open(id) ==> final(self).only_changed(*old(self), id)
                && final(self).spec_is_open(id) && done_step(
                old(self).spec_session(id),
                final(self).spec_session(id),
                error,
            ),
    {
        if !self.is_open(id) {
            return;
        }
        let ghost before = self.sessions@;
        let mut s = self.take(id);
        let was = is_active(s.state());
        s.worker_done(error);
        self.put_back(id, s, was, Ghost(before));
    }

    /// A failure of the session in slot `id` outside its workers, as
    /// `Session::fail`; the permit goes back when the session held one. A
    /// free slot stays free.
    pub fn fail(&mut self, id: usize, e: SessionError)
        requires
            old(self).wf(),
        ensures
            final(self).wf(),
            !old(self).spec_is_open(id) ==> *final(self) == *old(self),
            old(self).spec_is_open(id) ==> final(self).only_changed(*old(self), id)
                && final(self).spec_is_open(id) && fail_step(
                old(self).spec_session(id),
                final(self).spec_session(id),
                e,
            ),
    {
        if !self.is_open(id) {
            return;
        }
        let ghost before = self.sessions@;
        let mut s = self.take(id);
        let was = is_active(s.state());
        s.fail(e);
        self.put_back(id, s, was, Ghost(before));
    }
}

/// With a gate of capacity `N`, never more than `N` sessions are let in and
/// not yet ended.
pub proof fn lemma_admission_bound(a: Admission)
    requires
        a.wf(),
    ensures
        count_active(a.spec_sessions()) <= a.spec_gate().spec_capacity(),
{
    crate::gate::lemma_permits_bounded(a.gate);
}

} // verus!
