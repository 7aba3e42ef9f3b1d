//! The client's connection state machine.
//!
//! The machine decides; the caller acts. Each input reports what happened
//! (a connect attempt's outcome, bytes read, the end of a backoff wait, a
//! stop request) and the reply says which events to hand to the user
//! interface and which command to carry out next. Reconnection is automatic
//! with a fixed backoff until a stop is requested.

use vstd::prelude::*;
use crate::wire::{
    append_bytes, body_of, decode_host, framing_of, is_host_body, ClientMessage, Decoded, Framing,
    HostMessage, HEADER_BYTES, TAG_CAN_STREAM, TAG_CHUNK,
};

verus! {

/// Wait between a failed or lost connection and the next attempt, in milliseconds.
pub const BACKOFF_MS: u64 = 1000;

/// Where the connection stands.
#[derive(Copy, Clone, Debug, PartialEq, Eq, Structural)]
pub enum ClientPhase {
    Disconnected,
    Connecting,
    Connected,
}

/// What happened since the last input.
pub enum ClientInput {
    /// The user asks to start streaming.
    Start,
    /// The connect attempt succeeded.
    ConnectSucceeded,
    /// The connect attempt failed.
    ConnectFailed,
    /// The backoff wait is over.
    BackoffElapsed,
    /// A read returned these bytes (never empty).
    BytesRead(Vec<u8>),
    /// A read returned zero bytes: the peer closed the connection.
    PeerClosed,
    /// A read or write failed with an error other than would-block.
    IoFailed,
    /// A read would have blocked.
    WouldBlock,
    /// The user asks to stop streaming.
    StopRequested,
}

/// The handle handed out with each new connection.
#[derive(Copy, Clone, Debug, PartialEq, Eq, Structural)]
pub struct Connection {
    /// Counts connections made by this session, starting from 1.
    pub serial: u64,
}

/// Notifications for the user interface.
pub enum Event {
    Connected(Connection),
    Disconnected,
    DataReceived(Vec<u8>),
}

/// What the caller does next.
pub enum Command {
    /// Nothing; wait for the next input.
    Idle,
    /// Open a connection to the host.
    Connect,
    /// Write these bytes, then wait for readability and read.
    Send(Vec<u8>),
    /// Wait for readability and read.
    Read,
    /// Close the socket if one is open, wait this many milliseconds, then report `BackoffElapsed`.
    Backoff(u64),
    /// Close the socket if one is open; no retry follows.
    Close,
}

/// The events and the next command for one input.
pub struct Reaction {
    pub events: Vec<Event>,
    pub command: Command,
}

/// The phase after `input`, for every input but `BytesRead`.
pub open spec fn phase_after(p: ClientPhase, stopped: bool, input: ClientInput) -> ClientPhase {
    match input {
        ClientInput::Start => if p == ClientPhase::Disconnected {
            ClientPhase::Connecting
        } else {
            p
        },
        ClientInput::ConnectSucceeded => if p == ClientPhase::Connecting {
            ClientPhase::Connected
        } else {
            p
        },
        ClientInput::ConnectFailed => if p == ClientPhase::Connecting {
            ClientPhase::Disconnected
        } else {
            p
        },
        ClientInput::BackoffElapsed => if p == ClientPhase::Disconnected && !stopped {
            ClientPhase::Connecting
        } else {
            p
        },
        ClientInput::BytesRead(_) => p,
        ClientInput::PeerClosed | ClientInput::IoFailed => if p == ClientPhase::Connected {
            ClientPhase::Disconnected
        } else {
            p
        },
        ClientInput::WouldBlock => p,
        ClientInput::StopRequested => ClientPhase::Disconnected,
    }
}

/// Whether a stop is in force after `input`.
pub open spec fn stopped_after(p: ClientPhase, stopped: bool, input: ClientInput) -> bool {
    match input {
        ClientInput::Start => if p == ClientPhase::Disconnected {
            false
        } else {
            stopped
        },
        ClientInput::StopRequested => true,
        _ => stopped,
    }
}

/// What the envelopes at the front of a receive buffer amount to: whether
/// the stream must be dropped, the frames of the `Chunk` envelopes in order,
/// and the bytes left over of an incomplete envelope.
pub open spec fn scan(buf: Seq<u8>) -> (bool, Seq<Seq<u8>>, Seq<u8>)
    decreases buf.len(),
{
    match framing_of(buf) {
        Framing::Incomplete => (false, Seq::empty(), buf),
        Framing::TooLong => (true, Seq::empty(), Seq::empty()),
        Framing::Complete(n) => {
            let body = body_of(buf, n as nat);
            let rest = buf.subrange(HEADER_BYTES + n, buf.len() as int);
            if !is_host_body(body) || (body[0] == TAG_CAN_STREAM && body[1] == 0) {
                (true, Seq::empty(), Seq::empty())
            } else if body[0] == TAG_CHUNK {
                let tail = scan(rest);
                (tail.0, seq![body.drop_first()] + tail.1, tail.2)
            } else {
                scan(rest)
            }
        },
    }
}

/// One client's connection state.
pub struct ClientSession {
    phase: ClientPhase,
    stopped: bool,
    handshake: Vec<u8>,
    inbox: Vec<u8>,
    serial: u64,
}

impl ClientSession {
    /// Where the connection stands.
    pub closed spec fn spec_phase(&self) -> ClientPhase {
        self.phase
    }

    /// Whether a stop request is in force: no reconnection happens.
    pub closed spec fn spec_stopped(&self) -> bool {
        self.stopped
    }

    /// Bytes received but not yet making up a whole envelope.
    pub closed spec fn spec_inbox(&self) -> Seq<u8> {
        self.inbox@
    }

    /// The handshake sent on every new connection.
    pub closed spec fn spec_handshake(&self) -> Seq<u8> {
        self.handshake@
    }

    /// The serial of the current or most recent connection; 0 before the first.
    pub closed spec fn spec_serial(&self) -> u64 {
        self.serial
    }

    /// A disconnected, stopped session that will introduce itself as
    /// `display_name`; `None` when the name is too long for an envelope.
    pub fn new(display_name: String) -> (r: Option<Self>)
        ensures
            ({
                let m = ClientMessage::AudioRequest(display_name);
                &&& m.spec_body().len() <= crate::wire::MAX_BODY_BYTES ==> (r matches Some(s) && s.spec_phase()
                    == ClientPhase::Disconnected && s.spec_stopped() && s.spec_inbox().len() == 0
                    && s.spec_serial() == 0 && s.spec_handshake() == crate::wire::envelope(m.spec_body()))
                &&& m.spec_body().len() > crate::wire::MAX_BODY_BYTES ==> r is None
            }),
    {
        let m = ClientMessage::AudioRequest(display_name);
        match m.encode() {
            Some(handshake) => Some(
                ClientSession {
                    phase: ClientPhase::Disconnected,
                    stopped: true,
                    handshake,
                    inbox: Vec::new(),
                    serial: 0,
                },
            ),
            None => None,
        }
    }

    /// The current phase.
    pub fn phase(&self) -> (r: ClientPhase)
        ensures
            r == self.spec_phase(),
    {
        self.phase
    }

    /// Takes every complete envelope off the front of the receive buffer.
    fn drain(&mut self) -> (r: (bool, Vec<Vec<u8>>))
        ensures
            r.0 == scan(old(self).inbox@).0,
            r.1@.map_values(|f: Vec<u8>| f@) == scan(old(self).inbox@).1,
            !r.0 ==> final(self).inbox@ == scan(old(self).inbox@).2,
            final(self).phase == old(self).phase,
            final(self).stopped == old(self).stopped,
            final(self).serial == old(self).serial,
            final(self).handshake == old(self).handshake,
    {
        let mut frames: Vec<Vec<u8>> = Vec::new();
        let mut pos: usize = 0;
        let ghost whole = self.inbox@;
        proof {
            assert(whole.subrange(0, whole.len() as int) =~= whole);
            assert(frames@.map_values(|f: Vec<u8>| f@) + scan(whole).1 =~= scan(whole).1);
        }
        loop
            invariant
                self.inbox@ == whole,
                pos <= whole.len(),
                self.phase == old(self).phase,
                self.stopped == old(self).stopped,
                self.serial == old(self).serial,
                self.handshake == old(self).handshake,
                whole == old(self).inbox@,
                scan(whole).0 == scan(whole.subrange(pos as int, whole.len() as int)).0,
                scan(whole).2 == scan(whole.subrange(pos as int, whole.len() as int)).2,
                scan(whole).1 == frames@.map_values(|f: Vec<u8>| f@) + scan(
                    whole.subrange(pos as int, whole.len() as int),
                ).1,
            decreases whole.len() - pos,
        {
            let rest = &self.inbox.as_slice()[pos..self.inbox.len()];
            let ghost rs = rest@;
            assert(rs == whole.subrange(pos as int, whole.len() as int));
            match decode_host(rest) {
                Decoded::Incomplete => {
                    let mut left: Vec<u8> = Vec::new();
                    append_bytes(&mut left, rest);
                    proof {
                        assert(frames@.map_values(|f: Vec<u8>| f@) + Seq::<Seq<u8>>::empty()
                            =~= frames@.map_values(|f: Vec<u8>| f@));
                    }
                    self.inbox = left;
                    return (false, frames);
                },
                Decoded::Malformed => {
                    proof {
                        assert(frames@.map_values(|f: Vec<u8>| f@) + Seq::<Seq<u8>>::empty()
                            =~= frames@.map_values(|f: Vec<u8>| f@));
                    }
                    return (true, frames);
                },
                Decoded::Message(HostMessage::CanStream(accepted), used) => {
                    let ghost n = (used - HEADER_BYTES) as nat;
                    let ghost body = body_of(rs, n);
                    assert(body[0] == TAG_CAN_STREAM && body.len() == 2);
                    if !accepted {
                        proof {
                            assert(body[1] == 0);
                            assert(frames@.map_values(|f: Vec<u8>| f@) + Seq::<Seq<u8>>::empty()
                                =~= frames@.map_values(|f: Vec<u8>| f@));
                        }
                        return (true, frames);
                    }
                    proof {
                        assert(rs.subrange(used as int, rs.len() as int) =~= whole.subrange(
                            pos + used,
                            whole.len() as int,
                        ));
                    }
                    pos = pos + used;
                },
                Decoded::Message(HostMessage::Chunk(frame), used) => {
                    let ghost n = (used - HEADER_BYTES) as nat;
                    let ghost body = body_of(rs, n);
                    assert(body[0] == TAG_CHUNK);
                    assert(frame@ =~= body.drop_first());
                    let ghost before = frames@.map_values(|f: Vec<u8>| f@);
                    frames.push(frame);
                    proof {
                        assert(rs.subrange(used as int, rs.len() as int) =~= whole.subrange(
                            pos + used,
                            whole.len() as int,
                        ));
                        assert(frames@.map_values(|f: Vec<u8>| f@) =~= before.push(body.drop_first()));
                        let t = scan(whole.subrange(pos + used, whole.len() as int)).1;
                        assert(before + (seq![body.drop_first()] + t) =~= before.push(body.drop_first()) + t);
                    }
                    pos = pos + used;
                },
            }
        }
    }

    /// Reacts to one input: moves to the next phase and says which events
    /// to report and what to do next.
    pub fn step(&mut self, input: ClientInput) -> (r: Reaction)
        ensures
            ({
                let p = old(self).spec_phase();
                let stopped = old(self).spec_stopped();
                let handshake = old(self).spec_handshake();
                final(self).spec_handshake() == handshake && match input {
                    ClientInput::BytesRead(bytes) => if p != ClientPhase::Connected {
                        final(self).spec_phase() == p && final(self).spec_stopped() == stopped
                            && r.events@.len() == 0 && r.command is Idle
                    } else {
                        let s = scan(old(self).spec_inbox() + bytes@);
                        &&& final(self).spec_stopped() == stopped
                        &&& r.events@.len() == s.1.len() + (if s.0 { 1int } else { 0int })
                        &&& forall|k: int|
                            0 <= k < s.1.len() ==> (#[trigger] r.events@[k] matches Event::DataReceived(f)
                                && f@ == s.1[k])
                        &&& s.0 ==> final(self).spec_phase() == ClientPhase::Disconnected
                            && r.events@[s.1.len() as int] is Disconnected
                            && r.command == Command::Backoff(BACKOFF_MS)
                        &&& !s.0 ==> final(self).spec_phase() == ClientPhase::Connected
                            && final(self).spec_inbox() == s.2 && r.command is Read
                    },
                    _ => {
                        let q = phase_after(p, stopped, input);
                        &&& final(self).spec_phase() == q
                        &&& final(self).spec_stopped() == stopped_after(p, stopped, input)
                        &&& match input {
                            ClientInput::Start => if p == ClientPhase::Disconnected {
                                r.events@.len() == 0 && r.command is Connect
                            } else {
                                r.events@.len() == 0 && r.command is Idle
                            },
                            ClientInput::ConnectSucceeded => if p == ClientPhase::Connecting {
                                &&& r.events@.len() == 1
                                &&& r.events@[0] matches Event::Connected(c) && c.serial
                                    == final(self).spec_serial()
                                &&& final(self).spec_serial() == (if old(self).spec_serial() == u64::MAX {
                                    1
                                } else {
                                    old(self).spec_serial() + 1
                                })
                                &&& final(self).spec_inbox().len() == 0
                                &&& r.command matches Command::Send(b) && b@ == handshake
                            } else {
                                r.events@.len() == 0 && r.command is Close
                            },
                            ClientInput::ConnectFailed => if p == ClientPhase::Connecting {
                                r.events@.len() == 1 && r.events@[0] is Disconnected && r.command
                                    == Command::Backoff(BACKOFF_MS)
                            } else {
                                r.events@.len() == 0 && r.command is Idle
                            },
                            ClientInput::BackoffElapsed => if p == ClientPhase::Disconnected
                                && !stopped {
                                r.events@.len() == 0 && r.command is Connect
                            } else {
                                r.events@.len() == 0 && r.command is Idle
                            },
                            ClientInput::PeerClosed | ClientInput::IoFailed => if p
                                == ClientPhase::Connected {
                                r.events@.len() == 1 && r.events@[0] is Disconnected && r.command
                                    == Command::Backoff(BACKOFF_MS)
                            } else {
                                r.events@.len() == 0 && r.command is Idle
                            },
                            ClientInput::WouldBlock => if p == ClientPhase::Connected {
                                r.events@.len() == 0 && r.command is Read
                            } else {
                                r.events@.len() == 0 && r.command is Idle
                            },
                            ClientInput::StopRequested => if p == ClientPhase::Disconnected {
                                r.events@.len() == 0 && r.command is Close
                            } else {
                                r.events@.len() == 1 && r.events@[0] is Disconnected && r.command
                                    is Close
                            },
                            _ => true,
                        }
                    },
                }
            }),
    {
        let mut events: Vec<Event> = Vec::new();
        match input {
            ClientInput::Start => {
                if self.phase == ClientPhase::Disconnected {
                    self.phase = ClientPhase::Connecting;
                    self.stopped = false;
                    Reaction { events, command: Command::Connect }
                } else {
                    Reaction { events, command: Command::Idle }
                }
            },
            ClientInput::ConnectSucceeded => {
                if self.phase == ClientPhase::Connecting {
                    self.phase = ClientPhase::Connected;
                    self.serial = if self.serial == u64::MAX {
                        1
                    } else {
                        self.serial + 1
                    };
                    self.inbox = Vec::new();
                    events.push(Event::Connected(Connection { serial: self.serial }));
                    let mut hello: Vec<u8> = Vec::new();
                    append_bytes(&mut hello, self.handshake.as_slice());
                    Reaction { events, command: Command::Send(hello) }
                } else {
                    Reaction { events, command: Command::Close }
                }
            },
            ClientInput::ConnectFailed => {
                if self.phase == ClientPhase::Connecting {
                    self.phase = ClientPhase::Disconnected;
                    events.push(Event::Disconnected);
                    Reaction { events, command: Command::Backoff(BACKOFF_MS) }
                } else {
                    Reaction { events, command: Command::Idle }
                }
            },
            ClientInput::BackoffElapsed => {
                if self.phase == ClientPhase::Disconnected && !self.stopped {
                    self.phase = ClientPhase::Connecting;
                    Reaction { events, command: Command::Connect }
                } else {
                    Reaction { events, command: Command::Idle }
                }
            },
            ClientInput::BytesRead(bytes) => {
                if self.phase != ClientPhase::Connected {
                    return Reaction { events, command: Command::Idle };
                }
                let ghost joined = self.inbox@ + bytes@;
                append_bytes(&mut self.inbox, bytes.as_slice());
                let (fatal, frames) = self.drain();
                let ghost s = scan(joined);
                let mut i: usize = 0;
                let mut frames = frames;
                let ghost all = frames@;
                while i < frames.len()
                    invariant
                        0 <= i <= all.len(),
                        frames@ == all,
                        all.map_values(|f: Vec<u8>| f@) == s.1,
                        events@.len() == i,
                        forall|k: int|
                            0 <= k < i ==> (#[trigger] events@[k] matches Event::DataReceived(f)
                                && f@ == s.1[k]),
                    decreases all.len() - i,
                {
                    let mut f: Vec<u8> = Vec::new();
                    append_bytes(&mut f, frames[i].as_slice());
                    assert(f@ == s.1[i as int]);
                    events.push(Event::DataReceived(f));
                    i = i + 1;
                }
                if fatal {
                    self.phase = ClientPhase::Disconnected;
                    self.inbox = Vec::new();
                    events.push(Event::Disconnected);
                    Reaction { events, command: Command::Backoff(BACKOFF_MS) }
                } else {
                    Reaction { events, command: Command::Read }
                }
            },
            ClientInput::PeerClosed | ClientInput::IoFailed => {
                if self.phase == ClientPhase::Connected {
                    self.phase = ClientPhase::Disconnected;
                    self.inbox = Vec::new();
                    events.push(Event::Disconnected);
                    Reaction { events, command: Command::Backoff(BACKOFF_MS) }
                } else {
                    Reaction { events, command: Command::Idle }
                }
            },
            ClientInput::WouldBlock => {
                if self.phase == ClientPhase::Connected {
                    Reaction { events, command: Command::Read }
                } else {
                    Reaction { events, command: Command::Idle }
                }
            },
            ClientInput::StopRequested => {
                if self.phase != ClientPhase::Disconnected {
                    events.push(Event::Disconnected);
                }
                self.phase = ClientPhase::Disconnected;
                self.stopped = true;
                self.inbox = Vec::new();
                Reaction { events, command: Command::Close }
            },
        }
    }
}

/// Where a client that is connecting at time `t` (in milliseconds) stands
/// once it is no longer cycling through failed attempts, and when, if the
/// host accepts connections from `listen_at` on and connecting takes no time.
pub open spec fn reconnect(t: nat, listen_at: nat) -> (ClientPhase, nat)
    decreases (if t < listen_at { listen_at - t } else { 0 }),
{
    let outcome = if t >= listen_at {
        ClientInput::ConnectSucceeded
    } else {
        ClientInput::ConnectFailed
    };
    let after_attempt = phase_after(ClientPhase::Connecting, false, outcome);
    if after_attempt == ClientPhase::Connected || t >= listen_at {
        (after_attempt, t)
    } else {
        let after_wait = phase_after(after_attempt, false, ClientInput::BackoffElapsed);
        if after_wait != ClientPhase::Connecting {
            (after_wait, t)
        } else {
            reconnect((t + BACKOFF_MS) as nat, listen_at)
        }
    }
}

/// A client that starts connecting at time 0 while the host starts
/// listening at `listen_at` is connected by `listen_at + BACKOFF_MS`,
/// without intervention.
pub proof fn lemma_reconnect_liveness(listen_at: nat)
    ensures
        reconnect(0, listen_at).0 == ClientPhase::Connected,
        reconnect(0, listen_at).1 < listen_at + BACKOFF_MS,
{
    lemma_reconnect_from(0, listen_at);
}

proof fn lemma_reconnect_from(t: nat, listen_at: nat)
    ensures
        reconnect(t, listen_at).0 == ClientPhase::Connected,
        t >= listen_at ==> reconnect(t, listen_at).1 == t,
        t < listen_at ==> reconnect(t, listen_at).1 < listen_at + BACKOFF_MS,
    decreases (if t < listen_at { listen_at - t } else { 0 }),
{
    if t < listen_at {
        lemma_reconnect_from((t + BACKOFF_MS) as nat, listen_at);
    }
}

} // verus!
