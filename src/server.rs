//! The host side: one session per accepted connection, the broadcast hub
//! and the registry of attached listeners, behind one owner.
//!
//! A session starts awaiting its handshake. A complete `AudioRequest`
//! registers the peer, subscribes it to the hub and moves it to streaming;
//! a malformed handshake, a handshake timeout or a failed write closes it.
//! Closed sessions are dropped at once, and their registry entry with them.
//! Every operation is a short, non-blocking update: the caller performs the
//! socket I/O between operations, never while holding this state.

use vstd::prelude::*;
use vstd::utf8::decode_utf8;
use crate::hub::{BroadcastHub, bounded_push};
use crate::registry::{ClientRecord, PeerAddr, Registry};
use crate::wire::{
    body_of, decode_client, envelope, framing_of, le32, is_client_body, ClientMessage, Decoded, Framing,
    HostMessage, MAX_BODY_BYTES,
};

verus! {

/// Where a session stands.
#[derive(Copy, Clone, Debug, PartialEq, Eq, Structural)]
pub enum Phase {
    AwaitingHandshake,
    Streaming,
    Closed,
}

/// What the host knows of a live session.
#[derive(Copy, Clone, Debug, PartialEq, Eq, Structural)]
pub struct SessionView {
    pub address: PeerAddr,
    pub phase: Phase,
}

/// Why a connection could not be accepted.
#[derive(Copy, Clone, Debug, PartialEq, Eq, Structural)]
pub enum AcceptError {
    /// A live session already uses this peer address.
    AddressInUse,
    /// Every session id has been handed out.
    Exhausted,
}

/// Result of feeding handshake bytes to a session.
pub enum HandshakeOutcome {
    /// The handshake envelope is not complete yet.
    Pending,
    /// The peer is registered and streaming; these bytes (`CanStream(true)`) go back to it.
    Accepted(Vec<u8>),
    /// The handshake was malformed; the session is closed and was never registered.
    Rejected,
    /// No session with this id awaits a handshake; nothing changed.
    Ignored,
}

struct Session {
    id: u64,
    address: PeerAddr,
    phase: Phase,
    subscription: u64,
}

/// Whether some live session at `a` is streaming.
pub open spec fn has_streaming_session(m: Map<u64, SessionView>, a: PeerAddr) -> bool {
    exists|id: u64| #[trigger] m.contains_key(id) && m[id].address == a && m[id].phase == Phase::Streaming
}

/// The host's relay state: live sessions, the hub and the registry.
pub struct Host {
    hub: BroadcastHub,
    registry: Registry,
    sessions: Vec<Session>,
    next_session: u64,
    model: Ghost<Map<u64, SessionView>>,
}

impl Host {
    /// Live sessions by id; a closed session is no longer here.
    pub closed spec fn sessions(&self) -> Map<u64, SessionView> {
        self.model@
    }

    /// Attached listeners: address to display name.
    pub closed spec fn listeners(&self) -> Map<PeerAddr, Seq<char>> {
        self.registry@
    }

    /// Unread frames of each hub subscriber.
    pub closed spec fn queues(&self) -> Map<u64, Seq<Seq<u8>>> {
        self.hub@
    }

    /// Capacity of each subscriber's queue.
    pub closed spec fn queue_capacity(&self) -> nat {
        self.hub.spec_capacity()
    }

    /// The hub subscription of a streaming session.
    pub closed spec fn subscription_of(&self, id: u64) -> u64 {
        self.sessions@[self.index_of(id)].subscription
    }

    closed spec fn index_of(&self, id: u64) -> int {
        choose|i: int| 0 <= i < self.sessions@.len() && self.sessions@[i].id == id
    }

    proof fn lemma_index_of(&self, id: u64, i: int)
        requires
            self.table_ok(),
            0 <= i < self.sessions@.len(),
            self.sessions@[i].id == id,
        ensures
            self.index_of(id) == i,
    {
        let j = self.index_of(id);
        assert(0 <= j < self.sessions@.len() && self.sessions@[j].id == id);
        if j < i {
            assert(self.sessions@[j].id != self.sessions@[i].id);
        } else if i < j {
            assert(self.sessions@[i].id != self.sessions@[j].id);
        }
    }

    closed spec fn table_ok(&self) -> bool {
        &&& forall|i: int|
            #![trigger self.sessions@[i]]
            0 <= i < self.sessions@.len() ==> self.model@.contains_key(self.sessions@[i].id)
                && self.model@[self.sessions@[i].id] == (SessionView {
                address: self.sessions@[i].address,
                phase: self.sessions@[i].phase,
            }) && self.sessions@[i].phase != Phase::Closed
        &&& forall|id: u64| #[trigger]
            self.model@.contains_key(id) ==> exists|i: int|
                0 <= i < self.sessions@.len() && self.sessions@[i].id == id
        &&& forall|i: int, j: int|
            0 <= i < j < self.sessions@.len() ==> #[trigger] self.sessions@[i].id
                != #[trigger] self.sessions@[j].id
        &&& forall|id1: u64, id2: u64|
            #![trigger self.model@[id1], self.model@[id2]]
            self.model@.contains_key(id1) && self.model@.contains_key(id2) && id1 != id2
                ==> self.model@[id1].address != self.model@[id2].address
        &&& forall|id: u64| #[trigger] self.model@.contains_key(id) ==> id < self.next_session
    }

    closed spec fn links_ok(&self) -> bool {
        &&& forall|i: int|
            #![trigger self.sessions@[i]]
            0 <= i < self.sessions@.len() && self.sessions@[i].phase == Phase::Streaming
                ==> self.hub@.contains_key(self.sessions@[i].subscription)
        &&& forall|i: int, j: int|
            0 <= i < self.sessions@.len() && 0 <= j < self.sessions@.len() && i != j
                && self.sessions@[i].phase == Phase::Streaming && self.sessions@[j].phase
                == Phase::Streaming ==> #[trigger] self.sessions@[i].subscription
                != #[trigger] self.sessions@[j].subscription
    }

    closed spec fn registry_ok(&self) -> bool {
        forall|a: PeerAddr| #[trigger]
            self.registry@.contains_key(a) <==> has_streaming_session(self.model@, a)
    }

    /// The session table, the hub subscriptions and the registry agree.
    pub closed spec fn wf(&self) -> bool {
        &&& self.hub.wf()
        &&& self.registry.wf()
        &&& self.table_ok()
        &&& self.links_ok()
        &&& self.registry_ok()
    }

    /// The registry holds exactly the addresses of streaming sessions: no
    /// entry outlives its session, and no session is registered before its
    /// handshake completes.
    pub proof fn lemma_registry_matches_streaming_sessions(&self)
        requires
            self.wf(),
        ensures
            forall|a: PeerAddr| #[trigger]
                self.listeners().contains_key(a) <==> has_streaming_session(self.sessions(), a),
    {
    }

    /// A host with no sessions whose subscriber queues hold `queue_capacity` frames.
    pub fn new(queue_capacity: usize) -> (r: Self)
        requires
            queue_capacity >= 1,
        ensures
            r.wf(),
            r.sessions() == Map::<u64, SessionView>::empty(),
            r.listeners() == Map::<PeerAddr, Seq<char>>::empty(),
            r.queues() == Map::<u64, Seq<Seq<u8>>>::empty(),
            r.queue_capacity() == queue_capacity,
            r.can_accept(),
            r.can_subscribe(),
    {
        let r = Host {
            hub: BroadcastHub::new(queue_capacity),
            registry: Registry::new(),
            sessions: Vec::new(),
            next_session: 0,
            model: Ghost(Map::empty()),
        };
        assert forall|a: PeerAddr| #[trigger]
            r.registry@.contains_key(a) <==> has_streaming_session(r.model@, a) by {
        }
        r
    }

    fn find(&self, id: u64) -> (r: Option<usize>)
        requires
            self.wf(),
        ensures
            r matches Some(i) ==> i < self.sessions@.len() && self.sessions@[i as int].id == id,
            r is None ==> !self.sessions().contains_key(id),
    {
        let mut i: usize = 0;
        while i < self.sessions.len()
            invariant
                self.wf(),
                i <= self.sessions@.len(),
                forall|k: int| 0 <= k < i ==> self.sessions@[k].id != id,
            decreases self.sessions@.len() - i,
        {
            if self.sessions[i].id == id {
                return Some(i);
            }
            i = i + 1;
        }
        None
    }

    fn find_address(&self, address: PeerAddr) -> (r: bool)
        requires
            self.wf(),
        ensures
            r <==> exists|id: u64| #[trigger]
                self.sessions().contains_key(id) && self.sessions()[id].address == address,
    {
        let mut i: usize = 0;
        while i < self.sessions.len()
            invariant
                self.wf(),
                i <= self.sessions@.len(),
                forall|k: int| 0 <= k < i ==> self.sessions@[k].address != address,
            decreases self.sessions@.len() - i,
        {
            if self.sessions[i].address == address {
                assert(self.model@.contains_key(self.sessions@[i as int].id));
                return true;
            }
            i = i + 1;
        }
        assert forall|id: u64| #[trigger] self.model@.contains_key(id) implies self.model@[id].address
            != address by {
            let k = choose|k: int| 0 <= k < self.sessions@.len() && self.sessions@[k].id == id;
            assert(self.sessions@[k].address != address);
        }
        false
    }

    /// Opens a session, awaiting its handshake, for a peer that connected from `address`.
    pub fn accept(&mut self, address: PeerAddr) -> (r: Result<u64, AcceptError>)
        requires
            old(self).wf(),
        ensures
            final(self).wf(),
            final(self).listeners() == old(self).listeners(),
            final(self).queues() == old(self).queues(),
            final(self).queue_capacity() == old(self).queue_capacity(),
            final(self).can_subscribe() == old(self).can_subscribe(),
            r is Ok <==> old(self).can_accept() && !(exists|id: u64| #[trigger]
                old(self).sessions().contains_key(id) && old(self).sessions()[id].address == address),
            r is Ok ==> final(self).can_accept() == (old(self).spec_next_session() + 1 < u64::MAX),
            r is Err ==> final(self).can_accept() == old(self).can_accept(),
            (exists|id: u64| #[trigger]
                old(self).sessions().contains_key(id) && old(self).sessions()[id].address == address)
                ==> r == Err::<u64, AcceptError>(AcceptError::AddressInUse) && final(self).sessions()
                == old(self).sessions(),
            match r {
                Ok(id) => !old(self).sessions().contains_key(id) && final(self).sessions() == old(
                    self,
                ).sessions().insert(id, SessionView { address, phase: Phase::AwaitingHandshake }),
                Err(_) => final(self).sessions() == old(self).sessions(),
            },
    {
        if self.find_address(address) {
            return Err(AcceptError::AddressInUse);
        }
        if self.next_session == u64::MAX {
            return Err(AcceptError::Exhausted);
        }
        let id = self.next_session;
        let ghost old_sessions = self.sessions@;
        let ghost old_model = self.model@;
        let ghost view = SessionView { address, phase: Phase::AwaitingHandshake };
        self.sessions.push(
            Session { id, address, phase: Phase::AwaitingHandshake, subscription: 0 },
        );
        self.next_session = id + 1;
        self.model = Ghost(old_model.insert(id, view));
        proof {
            assert(!old_model.contains_key(id));
            assert forall|i: int|
                #![trigger self.sessions@[i]]
                0 <= i < self.sessions@.len() implies self.model@.contains_key(self.sessions@[i].id)
                    && self.model@[self.sessions@[i].id] == (SessionView {
                    address: self.sessions@[i].address,
                    phase: self.sessions@[i].phase,
                }) && self.sessions@[i].phase != Phase::Closed by {
                if i < old_sessions.len() {
                    assert(old_sessions[i] == self.sessions@[i]);
                }
            }
            assert forall|id2: u64| #[trigger] self.model@.contains_key(id2) implies exists|k: int|
                0 <= k < self.sessions@.len() && self.sessions@[k].id == id2 by {
                if id2 != id {
                    let k = choose|k: int| 0 <= k < old_sessions.len() && old_sessions[k].id == id2;
                    assert(self.sessions@[k].id == id2);
                } else {
                    assert(self.sessions@[old_sessions.len() as int].id == id2);
                }
            }
            assert forall|p: int, q: int|
                0 <= p < q < self.sessions@.len() implies #[trigger] self.sessions@[p].id
                    != #[trigger] self.sessions@[q].id by {
                if q == old_sessions.len() {
                    assert(old_sessions[p] == self.sessions@[p]);
                    assert(old_model.contains_key(old_sessions[p].id));
                }
            }
            assert forall|a: PeerAddr| #[trigger]
                self.registry@.contains_key(a) <==> has_streaming_session(self.model@, a) by {
                if has_streaming_session(self.model@, a) {
                    let w = choose|w: u64| #[trigger]
                        self.model@.contains_key(w) && self.model@[w].address == a
                            && self.model@[w].phase == Phase::Streaming;
                    assert(w != id);
                    assert(has_streaming_session(old_model, a));
                }
                if has_streaming_session(old_model, a) {
                    let w = choose|w: u64| #[trigger]
                        old_model.contains_key(w) && old_model[w].address == a && old_model[w].phase
                            == Phase::Streaming;
                    assert(self.model@.contains_key(w));
                }
            }
            assert forall|p: int, q: int|
                0 <= p < self.sessions@.len() && 0 <= q < self.sessions@.len() && p != q
                    && self.sessions@[p].phase == Phase::Streaming && self.sessions@[q].phase
                    == Phase::Streaming implies #[trigger] self.sessions@[p].subscription
                    != #[trigger] self.sessions@[q].subscription by {
                assert(p < old_sessions.len() && q < old_sessions.len());
                assert(old_sessions[p] == self.sessions@[p]);
                assert(old_sessions[q] == self.sessions@[q]);
            }
        }
        Ok(id)
    }

    /// Drops the session at position `i`: it leaves the hub and the registry.
    fn close_at(&mut self, i: usize)
        requires
            old(self).wf(),
            i < old(self).sessions@.len(),
        ensures
            final(self).wf(),
            final(self).sessions() == old(self).sessions().remove(old(self).sessions@[i as int].id),
            final(self).listeners() == old(self).listeners().remove(
                old(self).sessions@[i as int].address,
            ),
            old(self).sessions@[i as int].phase != Phase::Streaming ==> final(self).queues() == old(
                self,
            ).queues(),
            old(self).sessions@[i as int].phase == Phase::Streaming ==> final(self).queues() == old(
                self,
            ).queues().remove(old(self).sessions@[i as int].subscription),
            final(self).queue_capacity() == old(self).queue_capacity(),
            final(self).can_subscribe() == old(self).can_subscribe(),
            final(self).spec_next_session() == old(self).spec_next_session(),
    {
        let ghost old_sessions = self.sessions@;
        let ghost old_model = self.model@;
        let ghost old_hub = self.hub@;
        let ghost old_registry = self.registry@;
        let ghost id = old_sessions[i as int].id;
        let session = self.sessions.remove(i);
        assert(session == old_sessions[i as int]);
        assert(old_model.contains_key(id));
        if session.phase == Phase::Streaming {
            self.hub.unsubscribe(session.subscription);
        }
        self.registry.deregister(session.address);
        self.model = Ghost(old_model.remove(id));
        proof {
            assert forall|p: int|
                #![trigger self.sessions@[p]]
                0 <= p < self.sessions@.len() implies self.model@.contains_key(self.sessions@[p].id)
                    && self.model@[self.sessions@[p].id] == (SessionView {
                    address: self.sessions@[p].address,
                    phase: self.sessions@[p].phase,
                }) && self.sessions@[p].phase != Phase::Closed by {
                if p < i {
                    assert(self.sessions@[p] == old_sessions[p]);
                    assert(old_sessions[p].id != old_sessions[i as int].id);
                } else {
                    assert(self.sessions@[p] == old_sessions[p + 1]);
                    assert(old_sessions[i as int].id != old_sessions[p + 1].id);
                }
            }
            assert forall|id2: u64| #[trigger] self.model@.contains_key(id2) implies exists|k: int|
                0 <= k < self.sessions@.len() && self.sessions@[k].id == id2 by {
                let k = choose|k: int| 0 <= k < old_sessions.len() && old_sessions[k].id == id2;
                if k < i {
                    assert(self.sessions@[k].id == id2);
                } else {
                    assert(k != i);
                    assert(self.sessions@[k - 1].id == id2);
                }
            }
            assert forall|p: int, q: int|
                0 <= p < q < self.sessions@.len() implies #[trigger] self.sessions@[p].id
                    != #[trigger] self.sessions@[q].id by {
                if q < i {
                    assert(old_sessions[p].id != old_sessions[q].id);
                } else if p < i {
                    assert(old_sessions[p].id != old_sessions[q + 1].id);
                } else {
                    assert(old_sessions[p + 1].id != old_sessions[q + 1].id);
                }
            }
            assert forall|p: int|
                #![trigger self.sessions@[p]]
                0 <= p < self.sessions@.len() && self.sessions@[p].phase == Phase::Streaming
                    implies self.hub@.contains_key(self.sessions@[p].subscription) by {
                let op = if p < i { p } else { p + 1 };
                assert(self.sessions@[p] == old_sessions[op]);
                assert(old_hub.contains_key(old_sessions[op].subscription));
                if session.phase == Phase::Streaming {
                    assert(old_sessions[op].subscription != old_sessions[i as int].subscription);
                }
            }
            assert forall|p: int, q: int|
                0 <= p < self.sessions@.len() && 0 <= q < self.sessions@.len() && p != q
                    && self.sessions@[p].phase == Phase::Streaming && self.sessions@[q].phase
                    == Phase::Streaming implies #[trigger] self.sessions@[p].subscription
                    != #[trigger] self.sessions@[q].subscription by {
                let op = if p < i { p } else { p + 1 };
                let oq = if q < i { q } else { q + 1 };
                assert(self.sessions@[p] == old_sessions[op]);
                assert(self.sessions@[q] == old_sessions[oq]);
            }
            assert forall|a: PeerAddr| #[trigger]
                self.registry@.contains_key(a) <==> has_streaming_session(self.model@, a) by {
                if has_streaming_session(self.model@, a) {
                    let w = choose|w: u64| #[trigger]
                        self.model@.contains_key(w) && self.model@[w].address == a
                            && self.model@[w].phase == Phase::Streaming;
                    assert(old_model.contains_key(w) && w != id);
                    assert(old_model[w].address != old_model[id].address);
                    assert(has_streaming_session(old_model, a));
                }
                if a != session.address && has_streaming_session(old_model, a) {
                    let w = choose|w: u64| #[trigger]
                        old_model.contains_key(w) && old_model[w].address == a && old_model[w].phase
                            == Phase::Streaming;
                    assert(w != id);
                    assert(self.model@.contains_key(w));
                }
            }
        }
    }

    /// Closes session `id`, whatever its phase: it leaves the hub and the
    /// registry. Tells whether there was such a session.
    pub fn close(&mut self, id: u64) -> (r: bool)
        requires
            old(self).wf(),
        ensures
            final(self).wf(),
            r == old(self).sessions().contains_key(id),
            final(self).sessions() == old(self).sessions().remove(id),
            r ==> final(self).listeners() == old(self).listeners().remove(
                old(self).sessions()[id].address,
            ),
            r ==> !final(self).listeners().contains_key(old(self).sessions()[id].address),
            !r ==> final(self).listeners() == old(self).listeners(),
            final(self).queue_capacity() == old(self).queue_capacity(),
            final(self).can_subscribe() == old(self).can_subscribe(),
            final(self).spec_next_session() == old(self).spec_next_session(),
    {
        match self.find(id) {
            Some(i) => {
                assert(self.model@.contains_key(self.sessions@[i as int].id));
                self.close_at(i);
                true
            },
            None => {
                assert(self.model@.remove(id) =~= self.model@);
                false
            },
        }
    }

    /// A handshake that did not complete in time: a session still awaiting
    /// it is closed, unregistered. Tells whether one was closed.
    pub fn on_handshake_timeout(&mut self, id: u64) -> (r: bool)
        requires
            old(self).wf(),
        ensures
            final(self).wf(),
            r == (old(self).sessions().contains_key(id) && old(self).sessions()[id].phase
                == Phase::AwaitingHandshake),
            r ==> final(self).sessions() == old(self).sessions().remove(id),
            !r ==> final(self).sessions() == old(self).sessions(),
            final(self).listeners() == old(self).listeners(),
            final(self).queues() == old(self).queues(),
            final(self).queue_capacity() == old(self).queue_capacity(),
            final(self).can_subscribe() == old(self).can_subscribe(),
            final(self).spec_next_session() == old(self).spec_next_session(),
    {
        match self.find(id) {
            Some(i) => {
                assert(self.model@.contains_key(self.sessions@[i as int].id));
                if self.sessions[i].phase != Phase::AwaitingHandshake {
                    return false;
                }
                proof {
                    let a = self.sessions@[i as int].address;
                    if self.registry@.contains_key(a) {
                        let w = choose|w: u64| #[trigger]
                            self.model@.contains_key(w) && self.model@[w].address == a
                                && self.model@[w].phase == Phase::Streaming;
                        assert(w != id);
                    }
                    assert(self.registry@.remove(a) =~= self.registry@);
                }
                self.close_at(i);
                true
            },
            None => false,
        }
    }

    /// The id the next accepted session gets.
    pub closed spec fn spec_next_session(&self) -> u64 {
        self.next_session
    }

    /// Whether a session id is left to hand out.
    pub closed spec fn can_accept(&self) -> bool {
        self.next_session < u64::MAX
    }

    /// Whether the hub can still hand out a subscription.
    pub closed spec fn can_subscribe(&self) -> bool {
        self.hub.spec_next_id() < u64::MAX
    }

    /// Takes everything read so far from session `id`'s socket while it
    /// awaits its handshake. A complete `AudioRequest(name)` registers the
    /// peer under `name`, subscribes it to the hub and answers
    /// `CanStream(true)`; a malformed handshake closes the session without
    /// registering it.
    pub fn on_handshake(&mut self, id: u64, received: &[u8]) -> (r: HandshakeOutcome)
        requires
            old(self).wf(),
        ensures
            final(self).wf(),
            final(self).queue_capacity() == old(self).queue_capacity(),
            ({
                let awaiting = old(self).sessions().contains_key(id) && old(self).sessions()[id].phase
                    == Phase::AwaitingHandshake;
                let address = old(self).sessions()[id].address;
                let unchanged = final(self).sessions() == old(self).sessions() && final(self).listeners()
                    == old(self).listeners() && final(self).queues() == old(self).queues();
                let rejected = r is Rejected && final(self).sessions() == old(self).sessions().remove(id)
                    && final(self).listeners() == old(self).listeners() && final(self).queues() == old(
                    self,
                ).queues();
                if !awaiting {
                    r is Ignored && unchanged
                } else {
                    match framing_of(received@) {
                        Framing::Incomplete => r is Pending && unchanged,
                        Framing::TooLong => rejected,
                        Framing::Complete(n) => {
                            let body = body_of(received@, n as nat);
                            if !is_client_body(body) || !old(self).can_subscribe() {
                                rejected
                            } else {
                                let sub = final(self).subscription_of(id);
                                &&& r matches HandshakeOutcome::Accepted(reply) && reply@ == envelope(
                                    HostMessage::CanStream(true).spec_body(),
                                )
                                &&& final(self).sessions() == old(self).sessions().insert(
                                    id,
                                    SessionView { address, phase: Phase::Streaming },
                                )
                                &&& final(self).listeners() == old(self).listeners().insert(
                                    address,
                                    decode_utf8(body.drop_first()),
                                )
                                &&& !old(self).queues().contains_key(sub)
                                &&& final(self).queues() == old(self).queues().insert(sub, Seq::empty())
                            }
                        },
                    }
                }
            }),
    {
        let i = match self.find(id) {
            Some(i) => i,
            None => return HandshakeOutcome::Ignored,
        };
        assert(self.model@.contains_key(self.sessions@[i as int].id));
        if self.sessions[i].phase != Phase::AwaitingHandshake {
            return HandshakeOutcome::Ignored;
        }
        let ghost old_sessions = self.sessions@;
        let ghost old_model = self.model@;
        let ghost old_hub = self.hub@;
        let ghost old_registry = self.registry@;
        let ghost pre = *self;
        let address = self.sessions[i].address;
        proof {
            if old_registry.contains_key(address) {
                let w = choose|w: u64| #[trigger]
                    old_model.contains_key(w) && old_model[w].address == address
                        && old_model[w].phase == Phase::Streaming;
                assert(w != id);
                assert(old_model[id].address == address);
                assert(false);
            }
        }
        let decoded = decode_client(received);
        match decoded {
            Decoded::Incomplete => HandshakeOutcome::Pending,
            Decoded::Malformed => {
                proof {
                    assert(self.registry@.remove(address) =~= self.registry@);
                }
                self.close_at(i);
                HandshakeOutcome::Rejected
            },
            Decoded::Message(ClientMessage::AudioRequest(name), _) => {
                proof {
                    vstd::utf8::encode_utf8_decode_utf8(name@);
                    let n = le32(received@) as nat;
                    assert(body_of(received@, n).drop_first() =~= vstd::utf8::encode_utf8(name@));
                }
                let subscription = match self.hub.subscribe() {
                    Some(s) => s,
                    None => {
                        proof {
                            assert(self.registry@.remove(address) =~= self.registry@);
                        }
                        self.close_at(i);
                        return HandshakeOutcome::Rejected;
                    },
                };
                let reply = HostMessage::CanStream(true).encode().unwrap();
                self.registry.register(address, name);
                self.sessions.set(
                    i,
                    Session { id, address, phase: Phase::Streaming, subscription },
                );
                self.model = Ghost(old_model.insert(id, SessionView { address, phase: Phase::Streaming }));
                proof {
                    assert(self.registry@.dom() =~= pre.registry@.dom().insert(address));
                    Host::lemma_handshake_wf(pre, *self, i as int, subscription);
                    self.lemma_index_of(id, i as int);
                }
                HandshakeOutcome::Accepted(reply)
            },
        }
    }

    proof fn lemma_handshake_wf(pre: Host, post: Host, i: int, subscription: u64)
        requires
            pre.wf(),
            0 <= i < pre.sessions@.len(),
            pre.sessions@[i].phase == Phase::AwaitingHandshake,
            post.hub.wf(),
            post.registry.wf(),
            post.next_session == pre.next_session,
            !pre.hub@.contains_key(subscription),
            post.hub@ == pre.hub@.insert(subscription, Seq::empty()),
            post.registry@.dom() == pre.registry@.dom().insert(pre.sessions@[i].address),
            post.sessions@ == pre.sessions@.update(
                i,
                Session {
                    id: pre.sessions@[i].id,
                    address: pre.sessions@[i].address,
                    phase: Phase::Streaming,
                    subscription,
                },
            ),
            post.model@ == pre.model@.insert(
                pre.sessions@[i].id,
                SessionView { address: pre.sessions@[i].address, phase: Phase::Streaming },
            ),
        ensures
            post.wf(),
    {
        let old_sessions = pre.sessions@;
        let old_model = pre.model@;
        let old_hub = pre.hub@;
        let id = pre.sessions@[i].id;
        let address = pre.sessions@[i].address;
        let ii = i;
        assert(old_model.contains_key(id));
        let ii = i as int;
        assert forall|p: int|
            #![trigger post.sessions@[p]]
            0 <= p < post.sessions@.len() implies post.model@.contains_key(
                post.sessions@[p].id,
            ) && post.model@[post.sessions@[p].id] == (SessionView {
                address: post.sessions@[p].address,
                phase: post.sessions@[p].phase,
            }) && post.sessions@[p].phase != Phase::Closed by {
            if p != ii {
                assert(post.sessions@[p] == old_sessions[p]);
                if p < ii {
                    assert(old_sessions[p].id != old_sessions[ii].id);
                } else {
                    assert(old_sessions[ii].id != old_sessions[p].id);
                }
            }
        }
        assert forall|id2: u64| #[trigger] post.model@.contains_key(id2) implies exists|k: int|
            0 <= k < post.sessions@.len() && post.sessions@[k].id == id2 by {
            let k = choose|k: int| 0 <= k < old_sessions.len() && old_sessions[k].id == id2;
            assert(post.sessions@[k].id == id2);
        }
        assert forall|p: int, q: int|
            0 <= p < q < post.sessions@.len() implies #[trigger] post.sessions@[p].id
                != #[trigger] post.sessions@[q].id by {
            assert(old_sessions[p].id != old_sessions[q].id);
        }
        assert forall|id1: u64, id2: u64|
            #![trigger post.model@[id1], post.model@[id2]]
            post.model@.contains_key(id1) && post.model@.contains_key(id2) && id1 != id2
                implies post.model@[id1].address != post.model@[id2].address by {
            assert(old_model[id1].address != old_model[id2].address);
        }
        assert forall|p: int|
            #![trigger post.sessions@[p]]
            0 <= p < post.sessions@.len() && post.sessions@[p].phase == Phase::Streaming
                implies post.hub@.contains_key(post.sessions@[p].subscription) by {
            if p != ii {
                assert(post.sessions@[p] == old_sessions[p]);
            }
        }
        assert forall|p: int, q: int|
            0 <= p < post.sessions@.len() && 0 <= q < post.sessions@.len() && p != q
                && post.sessions@[p].phase == Phase::Streaming && post.sessions@[q].phase
                == Phase::Streaming implies #[trigger] post.sessions@[p].subscription
                != #[trigger] post.sessions@[q].subscription by {
            if p == ii {
                assert(post.sessions@[q] == old_sessions[q]);
                assert(old_hub.contains_key(old_sessions[q].subscription));
            } else if q == ii {
                assert(post.sessions@[p] == old_sessions[p]);
                assert(old_hub.contains_key(old_sessions[p].subscription));
            } else {
                assert(post.sessions@[p] == old_sessions[p]);
                assert(post.sessions@[q] == old_sessions[q]);
            }
        }
        assert forall|a: PeerAddr| #[trigger]
            post.registry@.contains_key(a) <==> has_streaming_session(post.model@, a) by {
            if a == address {
                assert(post.model@.contains_key(id));
            } else {
                if has_streaming_session(post.model@, a) {
                    let w = choose|w: u64| #[trigger]
                        post.model@.contains_key(w) && post.model@[w].address == a
                && post.model@[w].phase == Phase::Streaming;
                    assert(w != id);
                    assert(old_model.contains_key(w));
                }
                if has_streaming_session(old_model, a) {
                    let w = choose|w: u64| #[trigger]
                        old_model.contains_key(w) && old_model[w].address == a
                && old_model[w].phase == Phase::Streaming;
                    assert(w != id);
                    assert(post.model@.contains_key(w));
                }
            }
        }
                        assert forall|a: PeerAddr| #[trigger] post.registry@.contains_key(a) implies pre.registry@.contains_key(a) || a == address by {
            assert(post.registry@.dom().contains(a));
        }
    }

    /// The next frame for streaming session `id`, as a `Chunk` envelope.
    /// Takes the oldest unread frame of its queue; `None` when the session
    /// is not streaming or its queue is empty. A frame too long for an
    /// envelope is taken and dropped.
    pub fn next_chunk(&mut self, id: u64) -> (r: Option<Vec<u8>>)
        requires
            old(self).wf(),
        ensures
            final(self).wf(),
            final(self).sessions() == old(self).sessions(),
            final(self).listeners() == old(self).listeners(),
            final(self).queue_capacity() == old(self).queue_capacity(),
            ({
                let streaming = old(self).sessions().contains_key(id) && old(self).sessions()[id].phase
                    == Phase::Streaming;
                let s = old(self).subscription_of(id);
                if streaming && old(self).queues()[s].len() > 0 {
                    let f = old(self).queues()[s][0];
                    &&& final(self).queues() == old(self).queues().insert(s, old(self).queues()[s].drop_first())
                    &&& f.len() + 1 <= MAX_BODY_BYTES ==> (r matches Some(bytes) && bytes@ == envelope(
                        seq![crate::wire::TAG_CHUNK] + f,
                    ))
                    &&& f.len() + 1 > MAX_BODY_BYTES ==> r is None
                } else {
                    r is None && final(self).queues() == old(self).queues()
                }
            }),
    {
        let i = match self.find(id) {
            Some(i) => i,
            None => return None,
        };
        assert(self.model@.contains_key(self.sessions@[i as int].id));
        if self.sessions[i].phase != Phase::Streaming {
            return None;
        }
        proof {
            assert(self.sessions@[self.index_of(id)].id == id);
        }
        let subscription = self.sessions[i].subscription;
        let frame = match self.hub.receive(subscription) {
            Some(f) => f,
            None => return None,
        };
        HostMessage::Chunk(frame).encode()
    }

    /// Publishes one compressed frame to every streaming session.
    pub fn publish(&mut self, frame: &Vec<u8>)
        requires
            old(self).wf(),
        ensures
            final(self).wf(),
            final(self).sessions() == old(self).sessions(),
            final(self).listeners() == old(self).listeners(),
            final(self).queue_capacity() == old(self).queue_capacity(),
            final(self).queues().dom() == old(self).queues().dom(),
            forall|s: u64| #[trigger]
                old(self).queues().contains_key(s) ==> final(self).queues()[s] == bounded_push(
                    old(self).queues()[s],
                    frame@,
                    old(self).queue_capacity(),
                ),
    {
        self.hub.publish(frame);
    }

    /// A copy of the registry: every attached listener's address and name.
    pub fn snapshot(&self) -> (r: Vec<ClientRecord>)
        requires
            self.wf(),
        ensures
            r@.len() == self.listeners().len(),
            forall|i: int|
                0 <= i < r@.len() ==> #[trigger] self.listeners().contains_key(r@[i].address)
                    && self.listeners()[r@[i].address] == r@[i].display_name@,
            forall|a: PeerAddr| #[trigger]
                self.listeners().contains_key(a) ==> exists|i: int|
                    0 <= i < r@.len() && r@[i].address == a,
    {
        self.registry.snapshot()
    }

    /// Where session `id` stands; a closed session, like one never
    /// accepted, is no longer known and reads as `Closed`.
    pub fn phase_of(&self, id: u64) -> (r: Phase)
        requires
            self.wf(),
        ensures
            self.sessions().contains_key(id) ==> r == self.sessions()[id].phase,
            !self.sessions().contains_key(id) ==> r == Phase::Closed,
    {
        match self.find(id) {
            Some(i) => {
                assert(self.model@.contains_key(self.sessions@[i as int].id));
                self.sessions[i].phase
            },
            None => Phase::Closed,
        }
    }

    /// Number of attached listeners.
    pub fn listener_count(&self) -> (r: usize)
        requires
            self.wf(),
        ensures
            r == self.listeners().len(),
    {
        self.registry.len()
    }
}

} // verus!
