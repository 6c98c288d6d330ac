//! The server runtime's verified state: the session registry, the
//! runtime's bookkeeping for accepting, reaping and shutting down sessions,
//! and the per-session step that answers one read outcome.
//!
//! The process around the library owns the listening socket and the tasks;
//! it drives these state machines with the events it observes (a new
//! connection, a session's closure notification, a termination request, a
//! frame read from a connection) and performs the actions they return
//! (spawn, signal, await, write a reply).

use vstd::prelude::*;

use crate::error::{PiteriaErrorView, PiteriaIOError};
use crate::socket::message::{spec_enc_response, PiteriaResponseView};
use crate::socket::{decode_request, PiteriaRequest, PiteriaTag};
use crate::PiteriaService;
use crate::spec_respond_rel;

verus! {

// ---------------------------------------------------------------------------
// the session registry
// ---------------------------------------------------------------------------

/// The registry entries that survive removing `id`. Identities are unique,
/// so this removes at most one entry.
pub open spec fn spec_reg_remove<T>(v: Seq<(int, T)>, id: int) -> Seq<(int, T)>
    decreases v.len(),
{
    if v.len() == 0 {
        Seq::empty()
    } else if v.last().0 != id {
        spec_reg_remove(v.drop_last(), id).push(v.last())
    } else {
        spec_reg_remove(v.drop_last(), id)
    }
}

/// Whether the registry holds an entry under `id`.
pub open spec fn spec_reg_has<T>(v: Seq<(int, T)>, id: int) -> bool {
    exists|i: int| 0 <= i < v.len() && v[i].0 == id
}

/// Removing a session's entry is idempotent and complete: after one
/// removal the identity is gone, and removing it again changes nothing.
/// A session's own close notification and a concurrent runtime shutdown
/// therefore converge: whichever arrives second is a no-op.
pub proof fn lemma_reg_remove_idempotent<T>(v: Seq<(int, T)>, id: int)
    ensures
        !spec_reg_has(spec_reg_remove(v, id), id),
        spec_reg_remove(spec_reg_remove(v, id), id) == spec_reg_remove(v, id),
    decreases v.len(),
{
    if v.len() > 0 {
        lemma_reg_remove_idempotent(v.drop_last(), id);
        if v.last().0 != id {
            let w = spec_reg_remove(v.drop_last(), id).push(v.last());
            assert forall|i: int| 0 <= i < w.len() implies w[i].0 != id by {
                if i < w.len() - 1 {
                    assert(!spec_reg_has(spec_reg_remove(v.drop_last(), id), id));
                }
            }
            assert(w.drop_last() =~= spec_reg_remove(v.drop_last(), id));
            assert(spec_reg_remove(w, id) =~= w);
        }
    }
}

/// Entries whose identities are gone stay untouched by a removal.
proof fn lemma_reg_remove_absent<T>(v: Seq<(int, T)>, id: int)
    requires
        forall|i: int| 0 <= i < v.len() ==> v[i].0 != id,
    ensures
        spec_reg_remove(v, id) == v,
    decreases v.len(),
{
    if v.len() > 0 {
        lemma_reg_remove_absent(v.drop_last(), id);
        assert(spec_reg_remove(v, id) =~= v);
    }
}

/// Removing an identity that sits last pops it.
proof fn lemma_reg_remove_at<T>(v: Seq<(int, T)>, id: int, k: int)
    requires
        0 <= k < v.len(),
        v[k].0 == id,
        forall|i: int| 0 <= i < v.len() && i != k ==> v[i].0 != id,
    ensures
        spec_reg_remove(v, id) == v.subrange(0, k) + v.subrange(k + 1, v.len() as int),
    decreases v.len(),
{
    if k == v.len() - 1 {
        assert(forall|i: int| 0 <= i < v.drop_last().len() ==> v.drop_last()[i].0 != id);
        lemma_reg_remove_absent(v.drop_last(), id);
        assert(spec_reg_remove(v, id) =~= v.subrange(0, k) + v.subrange(k + 1, v.len() as int));
    } else {
        assert(v.drop_last()[k].0 == id);
        lemma_reg_remove_at(v.drop_last(), id, k);
        assert(spec_reg_remove(v, id) =~= v.subrange(0, k) + v.subrange(k + 1, v.len() as int));
    }
}

/// The registry of live sessions: each identity with the handle the
/// process keeps for it (its termination sender and its task handle).
/// Entries are kept in insertion order.
pub struct Registry<T> {
    ids: Vec<usize>,
    vals: Vec<T>,
}

impl<T> Registry<T> {
    /// The entries, in order.
    pub closed spec fn view(&self) -> Seq<(int, T)> {
        Seq::new(self.ids@.len(), |i: int| (self.ids@[i] as int, self.vals@[i]))
    }

    /// Identities are unique and every identity has its handle.
    pub closed spec fn wf(&self) -> bool {
        &&& self.ids@.len() == self.vals@.len()
        &&& forall|i: int, j: int|
            0 <= i < j < self.ids@.len() ==> self.ids@[i] != self.ids@[j]
    }

    /// An empty registry.
    pub fn new() -> (r: Self)
        ensures
            r.wf(),
            r@ == Seq::<(int, T)>::empty(),
    {
        let r = Registry { ids: Vec::new(), vals: Vec::new() };
        proof {
            assert(r@ =~= Seq::<(int, T)>::empty());
        }
        r
    }

    /// Number of live sessions.
    pub fn len(&self) -> (n: usize)
        requires
            self.wf(),
        ensures
            n == self@.len(),
    {
        self.ids.len()
    }

    /// Whether `id` is live.
    pub fn contains(&self, id: usize) -> (r: bool)
        requires
            self.wf(),
        ensures
            r == spec_reg_has(self@, id as int),
    {
        let mut i: usize = 0;
        while i < self.ids.len()
            invariant
                self.wf(),
                i <= self.ids@.len(),
                forall|j: int| 0 <= j < i ==> self.ids@[j] != id,
            decreases self.ids@.len() - i,
        {
            if self.ids[i] == id {
                proof {
                    assert(self@[i as int].0 == id as int);
                }
                return true;
            }
            i += 1;
        }
        proof {
            assert forall|j: int| 0 <= j < self@.len() implies self@[j].0 != id as int by {
                assert(self@[j].0 == self.ids@[j] as int);
            }
        }
        false
    }

    /// Record a spawned session. The identity must be fresh: the runtime
    /// allocates identities and never reuses a live one.
    pub fn insert(&mut self, id: usize, val: T)
        requires
            old(self).wf(),
            !spec_reg_has(old(self)@, id as int),
        ensures
            final(self).wf(),
            final(self)@ == old(self)@.push((id as int, val)),
    {
        self.ids.push(id);
        self.vals.push(val);
        proof {
            assert forall|i: int, j: int|
                0 <= i < j < self.ids@.len() implies self.ids@[i] != self.ids@[j] by {
                if j == self.ids@.len() - 1 {
                    assert(old(self)@[i].0 == old(self).ids@[i] as int);
                }
            }
            assert(self@ =~= old(self)@.push((id as int, val)));
        }
    }

    /// Remove a session's entry and hand back its handle: the one registry
    /// removal both the session's own close notification and a runtime
    /// shutdown go through. Removing an absent identity is a no-op.
    pub fn remove(&mut self, id: usize) -> (r: Option<T>)
        requires
            old(self).wf(),
        ensures
            final(self).wf(),
            final(self)@ == spec_reg_remove(old(self)@, id as int),
            r is Some <==> spec_reg_has(old(self)@, id as int),
    {
        let ghost v0 = old(self)@;
        let mut i: usize = 0;
        while i < self.ids.len()
            invariant
                self.wf(),
                v0 == old(self)@,
                self@ == v0,
                i <= self.ids@.len(),
                forall|j: int| 0 <= j < i ==> self.ids@[j] != id,
            decreases self.ids@.len() - i,
        {
            if self.ids[i] == id {
                proof {
                    assert(v0[i as int].0 == id as int);
                    assert(spec_reg_has(v0, id as int));
                    assert forall|j: int| 0 <= j < v0.len() && j != i as int implies v0[j].0
                        != id as int by {
                        assert(v0[j].0 == self.ids@[j] as int);
                        if j > i as int {
                            assert(self.ids@[j] != self.ids@[i as int]);
                        }
                    }
                    lemma_reg_remove_at(v0, id as int, i as int);
                }
                self.ids.remove(i);
                let val = self.vals.remove(i);
                proof {
                    assert(self@ =~= v0.subrange(0, i as int) + v0.subrange(
                        i as int + 1,
                        v0.len() as int,
                    ));
                    assert(self@ == spec_reg_remove(v0, id as int));
                    assert(spec_reg_has(v0, id as int));
                    assert(self.wf());
                }
                return Some(val);
            }
            i += 1;
        }
        proof {
            assert forall|j: int| 0 <= j < v0.len() implies v0[j].0 != id as int by {
                assert(v0[j].0 == self.ids@[j] as int);
            }
            lemma_reg_remove_absent(v0, id as int);
        }
        None
    }

    /// Take every handle out, in insertion order, leaving the registry
    /// empty: the shutdown's single sweep, so the caller can first signal
    /// every session and then await every one.
    pub fn drain(&mut self) -> (r: Vec<T>)
        requires
            old(self).wf(),
        ensures
            final(self).wf(),
            final(self)@ == Seq::<(int, T)>::empty(),
            r@ == old(self)@.map_values(|p: (int, T)| p.1),
    {
        self.ids.clear();
        let r = self.vals.split_off(0);
        proof {
            assert(self@ =~= Seq::<(int, T)>::empty());
            assert(self.vals@ =~= Seq::<T>::empty());
            assert(r@ =~= old(self)@.map_values(|p: (int, T)| p.1));
        }
        r
    }
}

// ---------------------------------------------------------------------------
// the server runtime
// ---------------------------------------------------------------------------

/// The runtime's bookkeeping: the registry of live sessions, the next
/// session identity, and whether new connections are still accepted.
pub struct ServerRuntime<T> {
    registry: Registry<T>,
    next_id: usize,
    accepting: bool,
}

impl<T> ServerRuntime<T> {
    pub closed spec fn sessions(&self) -> Seq<(int, T)> {
        self.registry@
    }

    pub closed spec fn next_session_id(&self) -> int {
        self.next_id as int
    }

    pub closed spec fn accepting(&self) -> bool {
        self.accepting
    }

    pub closed spec fn wf(&self) -> bool {
        self.registry.wf()
    }

    /// A fresh runtime: nothing live, identities from zero, accepting.
    pub fn new() -> (r: Self)
        ensures
            r.wf(),
            r.sessions() == Seq::<(int, T)>::empty(),
            r.next_session_id() == 0,
            r.accepting(),
    {
        ServerRuntime { registry: Registry::new(), next_id: 0, accepting: true }
    }

    /// Number of live sessions.
    pub fn session_count(&self) -> (n: usize)
        requires
            self.wf(),
        ensures
            n == self.sessions().len(),
    {
        self.registry.len()
    }

    /// Whether new connections are still accepted.
    pub fn is_accepting(&self) -> (r: bool)
        ensures
            r == self.accepting(),
    {
        self.accepting
    }

    /// Allocate the next session identity: a counter that wraps around
    /// once exhausted, unique among practical connection counts.
    fn gen_id(&mut self) -> (id: usize)
        ensures
            id == old(self).next_id,
            final(self).next_id == (if old(self).next_id == usize::MAX {
                0int
            } else {
                old(self).next_id + 1
            }),
            final(self).registry == old(self).registry,
            final(self).accepting == old(self).accepting,
    {
        let id = self.next_id;
        if self.next_id == usize::MAX {
            self.next_id = 0;
        } else {
            self.next_id = self.next_id + 1;
        }
        id
    }

    /// A new connection arrived: allocate its identity and record its
    /// handle. Counter wraparound can in principle revisit a live identity;
    /// the spawn is refused then rather than corrupting the registry, and
    /// the caller drops the connection.
    pub fn on_connection(&mut self, handle: T) -> (r: Result<usize, T>)
        requires
            old(self).wf(),
            old(self).accepting(),
        ensures
            final(self).wf(),
            final(self).accepting(),
            match r {
                Ok(id) => id as int == old(self).next_session_id() && !spec_reg_has(
                    old(self).sessions(),
                    id as int,
                ) && final(self).sessions() == old(self).sessions().push((id as int, handle)),
                Err(_) => spec_reg_has(old(self).sessions(), old(self).next_session_id())
                    && final(self).sessions() == old(self).sessions(),
            },
    {
        let ghost regs0 = self.registry@;
        if self.registry.contains(self.next_id) {
            return Err(handle);
        }
        let id = self.gen_id();
        self.registry.insert(id, handle);
        Ok(id)
    }

    /// A session reported its own closure: drop its entry and hand its
    /// handle back so the task can be awaited promptly. Arriving after the
    /// entry is already gone is a no-op: the session is removed exactly
    /// once, however the close races a shutdown.
    pub fn on_session_closed(&mut self, id: usize) -> (r: Option<T>)
        requires
            old(self).wf(),
        ensures
            final(self).wf(),
            final(self).sessions() == spec_reg_remove(old(self).sessions(), id as int),
            r is Some <==> spec_reg_has(old(self).sessions(), id as int),
            !spec_reg_has(final(self).sessions(), id as int),
            final(self).accepting() == old(self).accepting(),
            final(self).next_session_id() == old(self).next_session_id(),
    {
        let r = self.registry.remove(id);
        proof {
            lemma_reg_remove_idempotent(old(self).sessions(), id as int);
        }
        r
    }

    /// Terminate: stop accepting and take every live session's handle, in
    /// one sweep, leaving the registry empty. The caller signals every
    /// handle first and then awaits every one, so that when its shutdown
    /// returns, no session survives. A second call finds nothing and
    /// returns nothing: shutdown is idempotent.
    pub fn close(&mut self) -> (r: Vec<T>)
        requires
            old(self).wf(),
        ensures
            final(self).wf(),
            !final(self).accepting(),
            final(self).sessions() == Seq::<(int, T)>::empty(),
            r@ == old(self).sessions().map_values(|p: (int, T)| p.1),
    {
        self.accepting = false;
        self.registry.drain()
    }
}

// ---------------------------------------------------------------------------
// the per-session step
// ---------------------------------------------------------------------------

/// What a session observed in one loop iteration.
pub enum SessionEvent {
    /// A full frame's payload was read.
    Frame(Vec<u8>),
    /// The peer closed cleanly: end-of-stream at a frame boundary.
    PeerClosed,
    /// Some other read failure; non-fatal for the connection.
    ReadError(PiteriaIOError),
    /// The runtime asked this session to stop.
    Terminate,
}

/// What the session does next.
pub enum SessionStep {
    /// Write this reply frame payload back, then keep looping.
    Reply(Vec<u8>),
    /// Report nothing on the wire, keep looping.
    Ignore,
    /// Send the runtime the session's close notification, then stop.
    NotifyCloseAndStop,
    /// Stop without notifying: the runtime asked and already knows.
    Stop,
}

/// One iteration of the server session's loop, as a function of the event:
/// a decodable frame is answered on the protocol's ordinary path (domain
/// failures travel back as responses), an undecodable envelope is reported
/// and skipped, a clean peer close reports the closure upward and ends the
/// session, any other read failure is non-fatal, and a termination request
/// ends the session quietly.
pub fn session_step(svc: &PiteriaService, ev: SessionEvent) -> (r: SessionStep)
    ensures
        match ev {
            SessionEvent::Terminate => r is Stop,
            SessionEvent::PeerClosed => r is NotifyCloseAndStop,
            SessionEvent::ReadError(_) => r is Ignore,
            SessionEvent::Frame(payload) => {
                if payload@.len() >= 1 && PiteriaTag::spec_of_byte(payload@[0]) is Some {
                    match r {
                        SessionStep::Reply(b) => exists|out: Result<
                            PiteriaResponseView,
                            PiteriaErrorView,
                        >|
                            #[trigger] spec_respond_rel(
                                svc@,
                                PiteriaTag::spec_of_byte(payload@[0]).unwrap(),
                                payload@.subrange(1, payload@.len() as int),
                                out,
                            ) && b@ == spec_enc_response(out),
                        _ => false,
                    }
                } else {
                    r is Ignore
                }
            },
        },
{
    match ev {
        SessionEvent::Terminate => SessionStep::Stop,
        SessionEvent::PeerClosed => SessionStep::NotifyCloseAndStop,
        SessionEvent::ReadError(_) => SessionStep::Ignore,
        SessionEvent::Frame(payload) => {
            let req = match decode_request(payload.as_slice()) {
                Ok(req) => req,
                Err(_) => {
                    return SessionStep::Ignore;
                },
            };
            let outcome = svc.respond(&req);
            let bytes = crate::socket::message::encode_response(&outcome);
            proof {
                let ghost out_v: Result<PiteriaResponseView, PiteriaErrorView> = match outcome {
                    Ok(resp) => Ok(resp@),
                    Err(e) => Err(e@),
                };
                assert(req.message@ =~= payload@.subrange(1, payload@.len() as int));
                assert(spec_respond_rel(
                    svc@,
                    PiteriaTag::spec_of_byte(payload@[0]).unwrap(),
                    payload@.subrange(1, payload@.len() as int),
                    out_v,
                ) && bytes@ == spec_enc_response(out_v));
            }
            SessionStep::Reply(bytes)
        },
    }
}

} // verus!
