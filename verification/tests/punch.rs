use rxx::address::{Ipv6Address, SocketAddress};
use rxx::error::ErrorKind;
use rxx::udp::{classify_datagram, probe_ack, probe_packet, punch_hole, try_punch_hole};
use rxx::udp::{AttemptOutcome, Datagram, PunchAction, PunchEvent, PunchSession, PunchVerdict};
use rxx::udp::{CLIENT_PORT, MAX_RETRIES, PROBE_INTERVAL_SECS, SERVER_PORT, TIMEOUT_SECS};

fn addr(last: u16) -> Ipv6Address {
    Ipv6Address::new([0x2001, 0xdb8, 0, 0, 0, 0, 0, last])
}

fn endpoint(last: u16, port: u16) -> SocketAddress {
    SocketAddress {
        address: addr(last),
        port,
    }
}

#[test]
fn wire_constants() {
    assert_eq!(CLIENT_PORT, 3457);
    assert_eq!(SERVER_PORT, 3458);
    assert_eq!(TIMEOUT_SECS, 10);
    assert_eq!(MAX_RETRIES, 3);
    assert_eq!(PROBE_INTERVAL_SECS, 1);
    assert_eq!(probe_packet(), b"RXX_PROBE");
    assert_eq!(probe_ack(), b"RXX_PROBE_ACK");
    assert_eq!(probe_packet().len(), 9);
    assert_eq!(probe_ack().len(), 13);
}

#[test]
fn datagrams_are_told_apart_by_their_whole_content() {
    assert_eq!(classify_datagram(b"RXX_PROBE"), Datagram::Probe);
    assert_eq!(classify_datagram(b"RXX_PROBE_ACK"), Datagram::Ack);
    for other in [
        &b""[..],
        b"RXX_PROB",
        b"RXX_PROBE_",
        b"RXX_PROBE_ACK!",
        b"rxx_probe",
        b"RXX_PROBE\0",
        b"XXX_PROBE",
        b"RXX_PROBE_ACX",
    ] {
        assert_eq!(classify_datagram(other), Datagram::Other);
    }
}

#[test]
fn ports_are_assigned_by_role() {
    let server = PunchSession::start(addr(1), true);
    assert_eq!(server.local_port, 3458);
    assert_eq!(server.peer_port, 3457);
    assert_eq!(server.peer(), endpoint(1, 3457));
    let client = PunchSession::start(addr(2), false);
    assert_eq!(client.local_port, 3457);
    assert_eq!(client.peer_port, 3458);
    assert_eq!(client.peer(), endpoint(2, 3458));
    assert!(!client.sent_probe);
    assert!(!client.received_probe_or_ack);
    assert!(!client.is_established());
}

#[test]
fn two_sides_punch_through_to_each_other() {
    // The client sits at ::1 and the server at ::2 of the test network.
    let mut client = PunchSession::start(addr(2), false);
    let mut server = PunchSession::start(addr(1), true);
    let client_at = endpoint(1, CLIENT_PORT);
    let server_at = endpoint(2, SERVER_PORT);

    let from_client = client.on_tick();
    assert_eq!(from_client, PunchAction::SendProbe { to: server_at });
    let from_server = server.on_tick();
    assert_eq!(from_server, PunchAction::SendProbe { to: client_at });

    // Each receives the other's probe, answers it and is done.
    let at_server = server.on_datagram(&probe_packet(), client_at);
    assert_eq!(
        at_server,
        PunchAction::AckAndFinish {
            to: client_at,
            peer: client_at
        }
    );
    let at_client = client.on_datagram(&probe_packet(), server_at);
    assert_eq!(
        at_client,
        PunchAction::AckAndFinish {
            to: server_at,
            peer: server_at
        }
    );
    assert!(client.is_established());
    assert!(server.is_established());
}

#[test]
fn acknowledgement_finishes_once_a_probe_went_out() {
    let mut session = PunchSession::start(addr(9), false);
    let peer = endpoint(9, SERVER_PORT);
    assert_eq!(session.on_datagram(&probe_ack(), peer), PunchAction::Wait);
    assert!(session.received_probe_or_ack);
    assert!(!session.is_established());
    assert_eq!(session.on_tick(), PunchAction::SendProbe { to: peer });
    assert_eq!(
        session.on_datagram(&probe_ack(), peer),
        PunchAction::Finish { peer }
    );
    assert!(session.is_established());
}

#[test]
fn probe_before_the_first_tick_is_answered_and_ends_the_attempt() {
    let mut session = PunchSession::start(addr(9), true);
    let peer = endpoint(9, CLIENT_PORT);
    assert_eq!(
        session.on_datagram(&probe_packet(), peer),
        PunchAction::AckAndFinish { to: peer, peer }
    );
    assert!(session.received_probe_or_ack);
    assert!(!session.sent_probe);
}

#[test]
fn datagrams_from_elsewhere_and_other_content_are_dropped() {
    let mut session = PunchSession::start(addr(9), false);
    session.on_tick();
    let before = session;
    // Another address.
    assert_eq!(
        session.on_datagram(&probe_packet(), endpoint(8, SERVER_PORT)),
        PunchAction::Wait
    );
    // The peer's address, another port.
    assert_eq!(
        session.on_datagram(&probe_ack(), endpoint(9, 40000)),
        PunchAction::Wait
    );
    // The peer, but neither probe nor acknowledgement.
    assert_eq!(
        session.on_datagram(b"hello", endpoint(9, SERVER_PORT)),
        PunchAction::Wait
    );
    assert_eq!(session, before);
    assert!(!session.received_probe_or_ack);
}

#[test]
fn events_drive_the_session() {
    let mut session = PunchSession::start(addr(9), false);
    let peer = endpoint(9, SERVER_PORT);
    assert_eq!(
        try_punch_hole(&mut session, &PunchEvent::Tick),
        PunchAction::SendProbe { to: peer }
    );
    assert_eq!(
        try_punch_hole(
            &mut session,
            &PunchEvent::Received {
                data: b"noise".to_vec(),
                from: peer
            }
        ),
        PunchAction::Wait
    );
    assert_eq!(
        try_punch_hole(&mut session, &PunchEvent::Tick),
        PunchAction::SendProbe { to: peer }
    );
    assert_eq!(
        try_punch_hole(
            &mut session,
            &PunchEvent::Received {
                data: b"RXX_PROBE_ACK".to_vec(),
                from: peer
            }
        ),
        PunchAction::Finish { peer }
    );
}

#[test]
fn three_attempts_then_punch_timeout() {
    assert_eq!(
        punch_hole(1, &AttemptOutcome::TimedOut),
        PunchVerdict::Retry(2)
    );
    assert_eq!(
        punch_hole(2, &AttemptOutcome::Failed),
        PunchVerdict::Retry(3)
    );
    assert_eq!(
        punch_hole(3, &AttemptOutcome::TimedOut),
        PunchVerdict::GiveUp(ErrorKind::PunchTimeout)
    );
    assert_eq!(
        punch_hole(3, &AttemptOutcome::Failed),
        PunchVerdict::GiveUp(ErrorKind::PunchTimeout)
    );
    assert_eq!(
        punch_hole(u32::MAX, &AttemptOutcome::Failed),
        PunchVerdict::GiveUp(ErrorKind::PunchTimeout)
    );
    let peer = endpoint(9, SERVER_PORT);
    for attempt in 1..=3 {
        assert_eq!(
            punch_hole(attempt, &AttemptOutcome::Established(peer)),
            PunchVerdict::Connected(peer)
        );
    }
}

#[test]
fn engine_that_ticks_first_ends_only_when_both_directions_are_confirmed() {
    let peer = endpoint(9, SERVER_PORT);
    let stranger = endpoint(7, SERVER_PORT);
    let mut state: u64 = 2024;
    for _ in 0..2000 {
        let mut session = PunchSession::start(addr(9), false);
        assert_eq!(
            try_punch_hole(&mut session, &PunchEvent::Tick),
            PunchAction::SendProbe { to: peer }
        );
        for _ in 0..12 {
            state = state
                .wrapping_mul(6364136223846793005)
                .wrapping_add(1442695040888963407);
            let event = match (state >> 60) % 8 {
                0 | 1 => PunchEvent::Tick,
                2 => PunchEvent::Received {
                    data: probe_packet(),
                    from: peer,
                },
                3 => PunchEvent::Received {
                    data: probe_ack(),
                    from: peer,
                },
                4 => PunchEvent::Received {
                    data: probe_packet(),
                    from: stranger,
                },
                5 => PunchEvent::Received {
                    data: probe_ack(),
                    from: stranger,
                },
                6 => PunchEvent::Received {
                    data: b"RXX_PROBE_".to_vec(),
                    from: peer,
                },
                _ => PunchEvent::Received {
                    data: Vec::new(),
                    from: peer,
                },
            };
            let before = session;
            match try_punch_hole(&mut session, &event) {
                PunchAction::AckAndFinish { to, peer: p } => {
                    assert_eq!(to, peer);
                    assert_eq!(p, peer);
                    assert!(session.is_established());
                    break;
                }
                PunchAction::Finish { peer: p } => {
                    assert_eq!(p, peer);
                    assert!(session.is_established());
                    break;
                }
                PunchAction::SendProbe { to } => {
                    assert_eq!(to, peer);
                    assert!(matches!(event, PunchEvent::Tick));
                }
                PunchAction::Wait => {
                    assert!(!matches!(event, PunchEvent::Tick));
                    assert_eq!(session, before);
                }
            }
        }
    }
}
