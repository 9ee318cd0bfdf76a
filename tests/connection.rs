use gnet::connection::context::{
    build_accept_packet, build_reject_packet, classify_answer, request_due, request_of, Answer,
    ConnectionStatus, Context,
};
use gnet::connection::error::{BuildPacketError, ConnectionError};
use gnet::endpoint::Address;
use gnet::listen::{AcceptDecision, Acceptor, Admission};
use gnet::packet::{get_header, Signal, PACKET_SIZE};

fn client_address() -> Address {
    Address::V4([127, 0, 0, 1], 2101)
}

/// Runs the handshake of a client with handshake id 42 and returns both open contexts.
fn connect_pair(now: u64) -> (Context<u64>, Context<u64>, Acceptor) {
    let mut client = Context::<u64>::pending(42);
    let mut request = [0u8; PACKET_SIZE];
    let n = client.build_request_packet(&mut request, b"Please?").unwrap();
    assert_eq!(n, 24 + 7);

    let mut acceptor = Acceptor::new();
    assert!(acceptor.receive(&request[..n], client_address()));
    let datagrams = acceptor.take_datagrams(0);
    assert_eq!(datagrams.len(), 1);
    assert_eq!(datagrams[0].source, client_address());
    let (handshake_id, payload) = request_of(&datagrams[0].bytes).unwrap();
    assert_eq!(handshake_id, 42);
    assert_eq!(payload, b"Please?".to_vec());

    let mut answer = [0u8; PACKET_SIZE];
    let server = match acceptor.decide::<u64>(AcceptDecision::Allow, handshake_id, &mut answer, now) {
        Ok(Admission::Accepted(context, len)) => {
            assert_eq!(len, 26);
            assert_eq!(client.promote(&answer[..len], now), Answer::Accepted(1));
            context
        },
        _ => panic!("request was not accepted"),
    };
    (client, server, acceptor)
}

fn transfer(from: &mut Context<u64>, to: &mut Context<u64>, now: u64) -> usize {
    let mut packet = [0u8; PACKET_SIZE];
    let n = from.build_packet(&mut packet, now).unwrap();
    if n > 0 {
        assert!(to.process_inbound(&packet[..n], now));
    }
    n
}

#[test]
fn single_client_connects() {
    let (client, server, _) = connect_pair(0);
    assert!(client.is_open());
    assert!(server.is_open());
    assert_eq!(client.connection_id(), Some(1));
    assert_eq!(server.connection_id(), Some(1));
    assert_eq!(client.status(), ConnectionStatus::Open);
}

#[test]
fn reliable_parcel_round_trip() {
    let (mut client, mut server, _) = connect_pair(0);
    server.push_reliable_parcel(0x4865_6C6C_6F21u64).unwrap();
    let mut packet = [0u8; PACKET_SIZE];
    let n = server.build_packet(&mut packet, 10).unwrap();
    let header = get_header(&packet);
    assert!(header.signal.is_signal_set(Signal::Synchronized));
    assert_eq!(header.packet_id.0, 1);
    assert_eq!(header.connection_id, 1);
    assert!(client.process_inbound(&packet[..n], 10));
    assert_eq!(client.pop_parcel(), Ok((0x4865_6C6C_6F21u64, header.prelude)));
    assert_eq!(client.pop_parcel(), Err(ConnectionError::NoPendingParcels));
}

#[test]
fn duplicate_datagram_is_delivered_once() {
    let (mut client, mut server, _) = connect_pair(0);
    server.push_reliable_parcel(7u64).unwrap();
    let mut packet = [0u8; PACKET_SIZE];
    let n = server.build_packet(&mut packet, 1).unwrap();
    assert!(client.process_inbound(&packet[..n], 1));
    assert!(client.process_inbound(&packet[..n], 2));
    assert_eq!(client.pop_parcel(), Ok((7, [0; 4])));
    assert_eq!(client.pop_parcel(), Err(ConnectionError::NoPendingParcels));
}

#[test]
fn retransmission_after_loss() {
    let (mut a, mut b, _) = connect_pair(0);
    let mut packets = Vec::new();
    for value in 1..=3u64 {
        a.push_reliable_parcel(value * 100).unwrap();
        let mut packet = [0u8; PACKET_SIZE];
        let n = a.build_packet(&mut packet, 0).unwrap();
        assert_eq!(get_header(&packet).packet_id.0, value as u8);
        packets.push(packet[..n].to_vec());
    }
    assert_eq!(a.unacked_len(), 3);
    // Packet 2 is lost.
    assert!(b.process_inbound(&packets[0], 1));
    assert!(b.process_inbound(&packets[2], 1));

    let mut ack = [0u8; PACKET_SIZE];
    let n = b.build_packet(&mut ack, 2).unwrap();
    assert!(n >= 24);
    let header = get_header(&ack);
    assert_eq!(header.ack_packet_id.0, 3);
    assert_eq!(header.ack_packet_mask & 0b1, 0, "index 2 must not be acknowledged");
    assert_eq!(header.ack_packet_mask & 0b10, 0b10, "index 1 must be acknowledged");
    assert!(a.process_inbound(&ack[..n], 3));
    assert_eq!(a.unacked_len(), 1);

    a.tick(250);
    assert_eq!(a.unacked_len(), 0);
    let mut packet = [0u8; PACKET_SIZE];
    let n = a.build_packet(&mut packet, 250).unwrap();
    assert_eq!(get_header(&packet).packet_id.0, 4);
    assert!(b.process_inbound(&packet[..n], 251));

    let mut values = Vec::new();
    while let Ok((value, _)) = b.pop_parcel() {
        values.push(value);
    }
    assert_eq!(values, vec![100, 300, 200]);
}

#[test]
fn full_ack_window_holds_reliable_data() {
    let (mut a, mut b, _) = connect_pair(0);
    let mut packets = Vec::new();
    for value in 0..64u64 {
        a.push_reliable_parcel(value).unwrap();
        let mut packet = [0u8; PACKET_SIZE];
        let n = a.build_packet(&mut packet, 0).unwrap();
        packets.push(packet[..n].to_vec());
    }
    assert_eq!(a.unacked_len(), 64);
    a.push_reliable_parcel(64).unwrap();
    let mut packet = [0u8; PACKET_SIZE];
    let n = a.build_packet(&mut packet, 0).unwrap();
    if n > 0 {
        assert!(!get_header(&packet).signal.is_signal_set(Signal::Synchronized));
    }
    assert_eq!(a.unacked_len(), 64);

    for packet in &packets {
        assert!(b.process_inbound(packet, 1));
    }
    assert!(transfer(&mut b, &mut a, 2) > 0);
    assert_eq!(a.unacked_len(), 0);
    let n = transfer(&mut a, &mut b, 3);
    assert!(n > 24);
    assert_eq!(a.unacked_len(), 1);
    let mut count = 0;
    while b.pop_parcel().is_ok() {
        count += 1;
    }
    assert_eq!(count, 65);
}

#[test]
fn listener_rejects() {
    let mut client = Context::<u64>::pending(7);
    let mut request = [0u8; 64];
    let n = client.build_request_packet(&mut request, b"").unwrap();
    assert_eq!(n, 24);
    let mut acceptor = Acceptor::new();
    assert!(acceptor.receive(&request[..n], client_address()));
    let (handshake_id, payload) = request_of(&acceptor.take_datagrams(0)[0].bytes).unwrap();
    assert!(payload.is_empty());
    let mut answer = [0u8; 64];
    match acceptor.decide::<u64>(AcceptDecision::Reject, handshake_id, &mut answer, 0) {
        Ok(Admission::Rejected(len)) => {
            assert_eq!(client.promote(&answer[..len], 0), Answer::Rejected);
        },
        _ => panic!("request was not rejected"),
    }
    assert_eq!(client.status(), ConnectionStatus::Closed);
    assert!(matches!(
        acceptor.decide::<u64>(AcceptDecision::Ignore, handshake_id, &mut answer, 0),
        Ok(Admission::Ignored)
    ));
}

#[test]
fn handshake_without_answer_stays_pending() {
    let mut client = Context::<u64>::pending(99);
    let mut request = [0u8; 64];
    for _ in 0..10 {
        assert_eq!(client.build_request_packet(&mut request, b"hi"), Ok(26));
        assert_eq!(client.promote(&request[..26], 0), Answer::Unrelated);
        assert_eq!(client.promote(&[1, 2, 3], 0), Answer::Unrelated);
        assert_eq!(client.status(), ConnectionStatus::Pending);
    }
    let mut other = [0u8; 64];
    let len = build_accept_packet(&mut other, 98, 5);
    assert_eq!(client.promote(&other[..len], 0), Answer::Invalid);
    assert_eq!(client.status(), ConnectionStatus::Pending);
}

#[test]
fn request_is_resent_after_resync_period() {
    assert!(!request_due(1000, 1000));
    assert!(!request_due(1000, 1199));
    assert!(request_due(1000, 1200));
    assert!(request_due(1000, 1201));
    assert!(!request_due(1000, 999));
}

#[test]
fn answers_match_only_their_handshake() {
    let mut buffer = [0u8; 32];
    let len = build_accept_packet(&mut buffer, 1234, 9);
    assert_eq!(classify_answer(1234, &buffer[..len]), Answer::Accepted(9));
    assert_eq!(classify_answer(1235, &buffer[..len]), Answer::Invalid);
    let len = build_reject_packet(&mut buffer, 1234);
    assert_eq!(classify_answer(1234, &buffer[..len]), Answer::Rejected);
    assert_eq!(classify_answer(4321, &buffer[..len]), Answer::Invalid);
    assert_eq!(request_of(&buffer[..len]), None);
}

#[test]
fn stream_keeps_order() {
    let (mut client, mut server, _) = connect_pair(0);
    server.write_bytes_to_stream(b"hello ").unwrap();
    assert_eq!(server.write_item_to_stream(&0x2164_6C72_6F77u64), Ok(8));
    transfer(&mut server, &mut client, 1);
    assert_eq!(client.pending_incoming_stream_bytes(), 14);
    let mut buffer = [0u8; 4];
    assert_eq!(client.read_from_stream(&mut buffer), Ok(4));
    assert_eq!(&buffer, b"hell");
    let mut rest = [0u8; 32];
    assert_eq!(client.read_from_stream(&mut rest), Ok(10));
    assert_eq!(&rest[..10], b"o world!\0\0");
    assert_eq!(client.read_from_stream(&mut rest), Ok(0));
}

#[test]
fn stream_waits_for_acknowledgement() {
    let (mut client, mut server, _) = connect_pair(0);
    server.write_bytes_to_stream(b"one").unwrap();
    transfer(&mut server, &mut client, 1);
    server.write_bytes_to_stream(b"two").unwrap();
    // The first stream datagram is not acknowledged yet: nothing new is sent.
    assert_eq!(transfer(&mut server, &mut client, 2), 0);
    transfer(&mut client, &mut server, 3);
    transfer(&mut server, &mut client, 4);
    let mut buffer = [0u8; 8];
    assert_eq!(client.read_from_stream(&mut buffer), Ok(6));
    assert_eq!(&buffer[..6], b"onetwo");
}

#[test]
fn volatile_parcels_are_sent_unsynchronized() {
    let (mut client, mut server, _) = connect_pair(0);
    server.push_volatile_parcel(5u64).unwrap();
    let mut packet = [0u8; PACKET_SIZE];
    let n = server.build_packet(&mut packet, 1).unwrap();
    assert!(!get_header(&packet).signal.is_signal_set(Signal::Synchronized));
    assert_eq!(server.unacked_len(), 0);
    assert!(client.process_inbound(&packet[..n], 1));
    assert_eq!(client.pop_parcel(), Ok((5u64, [0; 4])));
    let mut short: Context<u16> = Context::accept(1, 0);
    assert!(short.process_inbound(&packet[..n], 1));
    assert_eq!(short.pop_parcel(), Ok((5u16, [0; 4])));
}

#[test]
fn keep_alive_and_timeout() {
    let (mut client, mut server, _) = connect_pair(0);
    let mut packet = [0u8; PACKET_SIZE];
    assert_eq!(server.build_packet(&mut packet, 100), Ok(0));
    assert_eq!(server.build_packet(&mut packet, 300), Ok(24));
    assert!(client.process_inbound(&packet[..24], 300));
    client.tick(2300);
    assert!(client.is_open());
    client.tick(2301);
    assert_eq!(client.status(), ConnectionStatus::Lost);
    assert_eq!(client.build_packet(&mut packet, 2302), Err(BuildPacketError::InvalidState));
    assert_eq!(client.push_reliable_parcel(1), Err(ConnectionError::InvalidState));
}

#[test]
fn close_is_seen_by_peer() {
    let (mut client, mut server, mut acceptor) = connect_pair(0);
    let mut packet = [0u8; PACKET_SIZE];
    assert_eq!(client.build_close_packet(&mut packet), Ok(24));
    assert_eq!(client.status(), ConnectionStatus::Closed);
    assert!(server.process_inbound(&packet[..24], 1));
    assert_eq!(server.status(), ConnectionStatus::Closed);
    acceptor.connection_closed(1);
    assert!(!acceptor.receive(&packet[..24], client_address()));
}

#[test]
fn foreign_datagrams_are_dropped() {
    let (mut client, _, _) = connect_pair(0);
    let mut other = Context::<u64>::accept(2, 0);
    other.push_reliable_parcel(1).unwrap();
    let mut packet = [0u8; PACKET_SIZE];
    let n = other.build_packet(&mut packet, 0).unwrap();
    assert!(!client.process_inbound(&packet[..n], 0));
    assert!(!client.process_inbound(&[0u8; 10], 0));
    assert_eq!(client.pop_parcel(), Err(ConnectionError::NoPendingParcels));
}
