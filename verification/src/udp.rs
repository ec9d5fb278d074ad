//! UDP hole punching: both sides send probes to each other's fixed port
//! until each has heard from the other.
//!
//! The client binds port 3457 and targets 3458; the server binds 3458 and
//! targets 3457. Each side sends `RXX_PROBE` once a second. A probe from the
//! peer is answered with `RXX_PROBE_ACK` and ends the attempt; an
//! acknowledgement ends it once a probe of our own has gone out. An attempt
//! may take 10 seconds, and there are 3 attempts.
//!
//! The functions here decide; the caller owns the socket and the clock,
//! hands over what happened and performs what comes back.

use crate::address::{Endpoint, Ipv6Address, SocketAddress};
use crate::error::ErrorKind;
use vstd::prelude::*;

verus! {

/// Port that the client binds and the server targets.
pub const CLIENT_PORT: u16 = 3457;

/// Port that the server binds and the client targets.
pub const SERVER_PORT: u16 = 3458;

/// Seconds that one attempt may take.
pub const TIMEOUT_SECS: u64 = 10;

/// Number of attempts.
pub const MAX_RETRIES: u32 = 3;

/// Seconds between two probes.
pub const PROBE_INTERVAL_SECS: u64 = 1;

/// Largest datagram that is read.
pub const MAX_DATAGRAM: usize = 1024;

/// The bytes of `RXX_PROBE`.
pub open spec fn probe_bytes() -> Seq<u8> {
    seq![0x52u8, 0x58u8, 0x58u8, 0x5fu8, 0x50u8, 0x52u8, 0x4fu8, 0x42u8, 0x45u8]
}

/// The bytes of `RXX_PROBE_ACK`.
pub open spec fn ack_bytes() -> Seq<u8> {
    probe_bytes() + seq![0x5fu8, 0x41u8, 0x43u8, 0x4bu8]
}

/// The probe datagram.
pub fn probe_packet() -> (packet: Vec<u8>)
    ensures
        packet@ == probe_bytes(),
{
    let packet: Vec<u8> = vec![0x52, 0x58, 0x58, 0x5f, 0x50, 0x52, 0x4f, 0x42, 0x45];
    assert(packet@ =~= probe_bytes());
    packet
}

/// The acknowledgement datagram.
pub fn probe_ack() -> (packet: Vec<u8>)
    ensures
        packet@ == ack_bytes(),
{
    let packet: Vec<u8> = vec![
        0x52,
        0x58,
        0x58,
        0x5f,
        0x50,
        0x52,
        0x4f,
        0x42,
        0x45,
        0x5f,
        0x41,
        0x43,
        0x4b,
    ];
    assert(packet@ =~= ack_bytes());
    packet
}

/// What a datagram says.
#[derive(Clone, Copy, Debug, PartialEq, Eq, Structural)]
pub enum Datagram {
    Probe,
    Ack,
    Other,
}

/// What a datagram with these bytes says: its whole content decides, so
/// the length alone tells a probe from an acknowledgement.
pub open spec fn datagram_of(data: Seq<u8>) -> Datagram {
    if data == probe_bytes() {
        Datagram::Probe
    } else if data == ack_bytes() {
        Datagram::Ack
    } else {
        Datagram::Other
    }
}

fn holds(data: &[u8], packet: &Vec<u8>) -> (same: bool)
    ensures
        same == (data@ == packet@),
{
    if data.len() != packet.len() {
        return false;
    }
    let mut i: usize = 0;
    while i < data.len()
        invariant
            i <= data@.len(),
            data@.len() == packet@.len(),
            forall|k: int| 0 <= k < i ==> data@[k] == packet@[k],
        decreases data@.len() - i,
    {
        if data[i] != packet[i] {
            return false;
        }
        i += 1;
    }
    assert(data@ =~= packet@);
    true
}

/// Reads a datagram.
pub fn classify_datagram(data: &[u8]) -> (kind: Datagram)
    ensures
        kind == datagram_of(data@),
{
    if holds(data, &probe_packet()) {
        Datagram::Probe
    } else if holds(data, &probe_ack()) {
        Datagram::Ack
    } else {
        Datagram::Other
    }
}

/// One attempt at punching a hole.
#[derive(Clone, Copy, Debug, PartialEq, Eq)]
pub struct PunchSession {
    pub local_port: u16,
    pub peer_addr: Ipv6Address,
    pub peer_port: u16,
    pub sent_probe: bool,
    pub received_probe_or_ack: bool,
}

/// A session as plain values.
pub struct Session {
    pub local_port: u16,
    pub peer: Endpoint,
    pub sent_probe: bool,
    pub received_probe_or_ack: bool,
}

impl View for PunchSession {
    type V = Session;

    open spec fn view(&self) -> Session {
        Session {
            local_port: self.local_port,
            peer: Endpoint { address: self.peer_addr@, port: self.peer_port },
            sent_probe: self.sent_probe,
            received_probe_or_ack: self.received_probe_or_ack,
        }
    }
}

/// What happened on the socket or the clock.
#[derive(Clone, Debug, PartialEq, Eq)]
pub enum PunchEvent {
    /// The probe interval has passed (the first time at once).
    Tick,
    /// A datagram has arrived.
    Received { data: Vec<u8>, from: SocketAddress },
}

/// An event as plain values.
pub enum Event {
    Tick,
    Received { data: Seq<u8>, from: Endpoint },
}

impl View for PunchEvent {
    type V = Event;

    open spec fn view(&self) -> Event {
        match *self {
            PunchEvent::Tick => Event::Tick,
            PunchEvent::Received { data, from } => Event::Received { data: data@, from: from@ },
        }
    }
}

/// What to do next.
#[derive(Clone, Copy, Debug, PartialEq, Eq)]
pub enum PunchAction {
    /// Send `RXX_PROBE` to `to` and go on.
    SendProbe { to: SocketAddress },
    /// Send `RXX_PROBE_ACK` to `to`; the channel to `peer` is established.
    AckAndFinish { to: SocketAddress, peer: SocketAddress },
    /// The channel to `peer` is established.
    Finish { peer: SocketAddress },
    /// Nothing to send; go on.
    Wait,
}

/// An action as plain values.
pub enum Action {
    SendProbe { to: Endpoint },
    AckAndFinish { to: Endpoint, peer: Endpoint },
    Finish { peer: Endpoint },
    Wait,
}

impl View for PunchAction {
    type V = Action;

    open spec fn view(&self) -> Action {
        match *self {
            PunchAction::SendProbe { to } => Action::SendProbe { to: to@ },
            PunchAction::AckAndFinish { to, peer } => Action::AckAndFinish { to: to@, peer: peer@ },
            PunchAction::Finish { peer } => Action::Finish { peer: peer@ },
            PunchAction::Wait => Action::Wait,
        }
    }
}

impl Action {
    /// This action ends the attempt with success.
    pub open spec fn finishes(self) -> bool {
        self is AckAndFinish || self is Finish
    }
}

/// The session at the start of an attempt.
pub open spec fn initial_session(peer_addr: Seq<u16>, is_server: bool) -> Session {
    Session {
        local_port: if is_server {
            SERVER_PORT
        } else {
            CLIENT_PORT
        },
        peer: Endpoint {
            address: peer_addr,
            port: if is_server {
                CLIENT_PORT
            } else {
                SERVER_PORT
            },
        },
        sent_probe: false,
        received_probe_or_ack: false,
    }
}

/// The session after a tick: a probe has gone out.
pub open spec fn after_tick(session: Session) -> Session {
    Session { sent_probe: true, ..session }
}

/// The session after a datagram: one from the peer that is a probe or an
/// acknowledgement counts as heard; any other changes nothing.
pub open spec fn after_datagram(session: Session, data: Seq<u8>, from: Endpoint) -> Session {
    if from == session.peer && !(datagram_of(data) is Other) {
        Session { received_probe_or_ack: true, ..session }
    } else {
        session
    }
}

/// What a datagram asks for: a probe from the peer is acknowledged and ends
/// the attempt; an acknowledgement from the peer ends it if a probe of ours
/// went out before; everything else is dropped.
pub open spec fn action_on_datagram(session: Session, data: Seq<u8>, from: Endpoint) -> Action {
    if from != session.peer {
        Action::Wait
    } else {
        match datagram_of(data) {
            Datagram::Probe => Action::AckAndFinish { to: from, peer: session.peer },
            Datagram::Ack => if session.sent_probe {
                Action::Finish { peer: session.peer }
            } else {
                Action::Wait
            },
            Datagram::Other => Action::Wait,
        }
    }
}

/// The session after an event.
pub open spec fn after_event(session: Session, event: Event) -> Session {
    match event {
        Event::Tick => after_tick(session),
        Event::Received { data, from } => after_datagram(session, data, from),
    }
}

/// What an event asks for: a tick sends a probe to the peer.
pub open spec fn action_on(session: Session, event: Event) -> Action {
    match event {
        Event::Tick => Action::SendProbe { to: session.peer },
        Event::Received { data, from } => action_on_datagram(session, data, from),
    }
}

/// The session after a row of events.
pub open spec fn after_events(session: Session, events: Seq<Event>) -> Session
    decreases events.len(),
{
    if events.len() == 0 {
        session
    } else {
        after_event(after_events(session, events.drop_last()), events.last())
    }
}

impl PunchSession {
    /// Starts an attempt towards `peer_addr`: the server binds 3458 and
    /// targets 3457, the client the other way round.
    pub fn start(peer_addr: Ipv6Address, is_server: bool) -> (session: PunchSession)
        ensures
            session@ == initial_session(peer_addr@, is_server),
    {
        PunchSession {
            local_port: if is_server {
                SERVER_PORT
            } else {
                CLIENT_PORT
            },
            peer_addr,
            peer_port: if is_server {
                CLIENT_PORT
            } else {
                SERVER_PORT
            },
            sent_probe: false,
            received_probe_or_ack: false,
        }
    }

    /// The endpoint that is targeted, and that the transport is to use.
    pub fn peer(&self) -> (peer: SocketAddress)
        ensures
            peer@ == self@.peer,
    {
        SocketAddress { address: self.peer_addr, port: self.peer_port }
    }

    /// Both directions are confirmed.
    pub fn is_established(&self) -> (yes: bool)
        ensures
            yes == (self@.sent_probe && self@.received_probe_or_ack),
    {
        self.sent_probe && self.received_probe_or_ack
    }

    /// The probe interval has passed: a probe goes to the peer.
    pub fn on_tick(&mut self) -> (action: PunchAction)
        ensures
            final(self)@ == after_tick(old(self)@),
            action@ == (Action::SendProbe { to: old(self)@.peer }),
    {
        self.sent_probe = true;
        PunchAction::SendProbe { to: self.peer() }
    }

    /// A datagram with `data` has arrived from `from`.
    pub fn on_datagram(&mut self, data: &[u8], from: SocketAddress) -> (action: PunchAction)
        ensures
            final(self)@ == after_datagram(old(self)@, data@, from@),
            action@ == action_on_datagram(old(self)@, data@, from@),
    {
        let peer = self.peer();
        if !from.same_as(&peer) {
            return PunchAction::Wait;
        }
        match classify_datagram(data) {
            Datagram::Probe => {
                self.received_probe_or_ack = true;
                PunchAction::AckAndFinish { to: from, peer }
            },
            Datagram::Ack => {
                self.received_probe_or_ack = true;
                if self.sent_probe {
                    PunchAction::Finish { peer }
                } else {
                    PunchAction::Wait
                }
            },
            Datagram::Other => PunchAction::Wait,
        }
    }
}

/// One step of an attempt: takes what happened and says what to do.
pub fn try_punch_hole(session: &mut PunchSession, event: &PunchEvent) -> (action: PunchAction)
    ensures
        final(session)@ == after_event(old(session)@, event@),
        action@ == action_on(old(session)@, event@),
{
    match event {
        PunchEvent::Tick => session.on_tick(),
        PunchEvent::Received { data, from } => session.on_datagram(data.as_slice(), *from),
    }
}

/// How an attempt ended.
#[derive(Clone, Copy, Debug, PartialEq, Eq)]
pub enum AttemptOutcome {
    /// The channel to this endpoint is established.
    Established(SocketAddress),
    /// Sending or receiving failed.
    Failed,
    /// The attempt took longer than it may.
    TimedOut,
}

/// What follows an attempt.
#[derive(Clone, Copy, Debug, PartialEq, Eq)]
pub enum PunchVerdict {
    /// Use this endpoint for the transport.
    Connected(SocketAddress),
    /// Make the attempt with this number.
    Retry(u32),
    /// Give up with this kind of error.
    GiveUp(ErrorKind),
}

/// One step of the engine: what follows attempt number `attempt` (counted
/// from 1), given how it ended. A success is final. A failure or a timeout
/// leads to the next attempt while fewer than 3 were made, and to
/// `PunchTimeout` after the third.
pub fn punch_hole(attempt: u32, outcome: &AttemptOutcome) -> (verdict: PunchVerdict)
    ensures
        match *outcome {
            AttemptOutcome::Established(peer) => verdict matches PunchVerdict::Connected(p) && p@
                == peer@,
            _ => if attempt < MAX_RETRIES {
                verdict matches PunchVerdict::Retry(next) && next == attempt + 1
            } else {
                verdict matches PunchVerdict::GiveUp(kind) && kind == ErrorKind::PunchTimeout
            },
        },
{
    match outcome {
        AttemptOutcome::Established(peer) => PunchVerdict::Connected(*peer),
        _ => if attempt < MAX_RETRIES {
            PunchVerdict::Retry(attempt + 1)
        } else {
            PunchVerdict::GiveUp(ErrorKind::PunchTimeout)
        },
    }
}

/// An attempt ends with success only when the peer was heard, and, unless
/// it ends on a probe that arrived before any probe of ours went out, only
/// when a probe of ours went out too.
pub proof fn lemma_finish_is_bidirectional(session: Session, data: Seq<u8>, from: Endpoint)
    requires
        session.sent_probe || !(datagram_of(data) is Probe),
    ensures
        action_on_datagram(session, data, from).finishes() ==> {
            &&& after_datagram(session, data, from).sent_probe
            &&& after_datagram(session, data, from).received_probe_or_ack
        },
{
}

/// What was sent and heard stays sent and heard.
pub proof fn lemma_flags_stay(session: Session, events: Seq<Event>)
    ensures
        session.sent_probe ==> after_events(session, events).sent_probe,
        session.received_probe_or_ack ==> after_events(session, events).received_probe_or_ack,
        after_events(session, events).peer == session.peer,
        events.len() > 0 && events[0] is Tick ==> after_events(session, events).sent_probe,
    decreases events.len(),
{
    if events.len() > 0 {
        lemma_flags_stay(session, events.drop_last());
        if events.len() > 1 {
            assert(events.drop_last()[0] == events[0]);
        }
    }
}

/// An engine that starts with a tick, as it does when the first tick of its
/// interval comes at once, ends an attempt with success only after a probe
/// of its own went out and the peer was heard.
pub proof fn lemma_success_needs_both_directions(
    peer_addr: Seq<u16>,
    is_server: bool,
    events: Seq<Event>,
)
    requires
        events.len() > 0,
        events[0] is Tick,
    ensures
        action_on(
            after_events(initial_session(peer_addr, is_server), events.drop_last()),
            events.last(),
        ).finishes() ==> {
            &&& after_events(initial_session(peer_addr, is_server), events).sent_probe
            &&& after_events(initial_session(peer_addr, is_server), events).received_probe_or_ack
        },
{
    let start = initial_session(peer_addr, is_server);
    lemma_flags_stay(start, events.drop_last());
    lemma_flags_stay(start, events);
    if events.len() > 1 {
        assert(events.drop_last()[0] == events[0]);
    }
}

/// A datagram from anywhere but the targeted endpoint changes nothing and
/// asks for nothing.
pub proof fn lemma_strangers_are_ignored(session: Session, data: Seq<u8>, from: Endpoint)
    requires
        from != session.peer,
    ensures
        after_datagram(session, data, from) == session,
        action_on_datagram(session, data, from) is Wait,
{
}

} // verus!
