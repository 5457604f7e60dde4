use prudp::connection::{Connection, PacketEvent, PrudpSockAddr};
use prudp::packet::{
    PacketOption, PrudpHeader, PrudpPacket, TypesAndFlags, VirtualPort, ACK, CONNECT, DATA, HAS_SIZE,
    MULTI_ACK, NEED_ACK, PING, RELIABLE, SYN,
};
use prudp::router::Router;
use prudp::socket::SocketImpl;

const SYN_PACKET: [u8; 57] = [
    234, 208, 1, 27, 0, 0, 175, 161, 192, 0, 0, 0, 0, 0, 36, 21, 233, 179, 203, 154, 57, 222, 219, 9, 21, 2,
    29, 172, 56, 92, 0, 4, 4, 1, 0, 0, 1, 16, 0, 0, 0, 0, 0, 0, 0, 0, 0, 0, 0, 0, 0, 0, 0, 0, 4, 1, 0,
];
const CONNECT_PACKET: [u8; 61] = [
    234, 208, 1, 31, 0, 0, 175, 161, 225, 0, 249, 0, 1, 0, 40, 168, 31, 138, 58, 193, 30, 134, 3, 232, 205,
    245, 28, 155, 193, 198, 0, 4, 0, 0, 0, 0, 1, 16, 211, 240, 113, 188, 227, 114, 114, 30, 157, 179, 246, 55,
    233, 240, 44, 197, 3, 2, 247, 244, 4, 1, 0,
];
const CLIENT_SIG: [u8; 16] = [211, 240, 113, 188, 227, 114, 114, 30, 157, 179, 246, 55, 233, 240, 44, 197];
const KEY: &[u8] = b"6f599f81";

fn peer() -> PrudpSockAddr {
    PrudpSockAddr { ip: 0x7F00_0001, port: 2469, virtual_port: VirtualPort(0xAF) }
}

fn packet(t: u16, flags: u16, seq: u16, payload: Vec<u8>) -> PrudpPacket {
    PrudpPacket {
        header: PrudpHeader {
            source_port: VirtualPort(0xAF),
            destination_port: VirtualPort(0xA1),
            types_and_flags: TypesAndFlags::from_parts(t, flags),
            session_id: 1,
            substream_id: 0,
            sequence_id: seq,
        },
        signature: vec![0; 16],
        options: vec![],
        payload,
    }
}

fn reliable(seq: u16, payload: Vec<u8>) -> PrudpPacket {
    packet(DATA, RELIABLE | HAS_SIZE, seq, payload)
}

#[test]
fn test_connect() {
    let mut sock = SocketImpl::new(VirtualPort(0xA1), KEY.to_vec(), false);
    let (p1, _) = PrudpPacket::decode(&SYN_PACKET, 0).unwrap();
    let (p2, _) = PrudpPacket::decode(&CONNECT_PACKET, 0).unwrap();

    let r = sock.process_packet(peer(), &p1);
    assert_eq!(r.event, PacketEvent::SynAnswered);
    assert_eq!(r.responses.len(), 1);
    let syn_ack = &r.responses[0];
    assert_eq!(syn_ack.header.types_and_flags.get_types(), SYN);
    assert_eq!(syn_ack.header.types_and_flags.get_flags(), ACK | HAS_SIZE);
    assert_eq!(syn_ack.header.source_port, VirtualPort(0xA1));
    assert_eq!(syn_ack.header.destination_port, VirtualPort(0xAF));
    let server_sig = peer().calculate_connection_signature(KEY);
    assert_eq!(server_sig, vec![124, 182, 120, 224, 42, 162, 204, 187, 184, 12, 82, 131, 205, 113, 195, 82]);
    assert!(matches!(&syn_ack.options[0], PacketOption::ConnectionSignature(s) if *s == server_sig));
    assert!(matches!(syn_ack.options[1], PacketOption::SupportedFunctions(0x04)));
    assert!(matches!(syn_ack.options[2], PacketOption::MaximumSubstreamId(0)));
    assert_eq!(syn_ack.options.len(), 3);
    assert!(syn_ack.verify_signature(KEY, &[], &[]));
    assert!(syn_ack.to_bytes().is_some());

    let r = sock.process_packet(peer(), &p2);
    assert_eq!(r.event, PacketEvent::Connected);
    assert!(r.newly_established);
    assert_eq!(r.responses.len(), 1);
    let connect_ack = &r.responses[0];
    assert_eq!(connect_ack.header.types_and_flags.get_types(), CONNECT);
    assert_eq!(connect_ack.header.sequence_id, 1);
    assert_eq!(connect_ack.header.session_id, 249);
    assert!(connect_ack.verify_signature(KEY, &[], &CLIENT_SIG));

    assert_eq!(sock.connections.len(), 1);
    let c = &sock.connections[0];
    assert_eq!(c.client_signature, CLIENT_SIG.to_vec());
    assert_eq!(c.server_signature, server_sig);
    assert_eq!(c.session_id, 249);
    assert_eq!(c.reliable_client_counter, 2);
    assert!(c.established);
}

#[test]
fn connect_without_signature() {
    let mut p = packet(CONNECT, RELIABLE | NEED_ACK | HAS_SIZE, 1, vec![]);
    p.options.push(PacketOption::ConnectionSignature(vec![0; 16]));
    let mut c = Connection::new(peer(), 1);
    let r = c.process_packet(&p, KEY, false);
    assert_eq!(r.event, PacketEvent::ConnectedWithoutSignature);
    assert_eq!(r.responses.len(), 1);
    assert!(c.established);
    let mut c = Connection::new(peer(), 1);
    let r = c.process_packet(&p, KEY, true);
    assert_eq!(r.event, PacketEvent::BadSignature);
    p.calculate_and_assign_signature(KEY, &[], &c.server_signature.clone());
    let r = c.process_packet(&p, KEY, true);
    assert_eq!(r.event, PacketEvent::MissingSignatureRejected);
    assert!(r.responses.is_empty());
    assert!(!c.established);
}

#[test]
fn reordered_packets_are_delivered_in_order() {
    let mut c = Connection::new(peer(), 1);
    let r = c.process_packet(&reliable(2, vec![22]), KEY, false);
    assert_eq!(r.event, PacketEvent::ReliableBuffered);
    assert!(r.delivered.is_empty());
    let r = c.process_packet(&reliable(1, vec![11]), KEY, false);
    assert!(r.delivered.is_empty());
    assert_eq!(c.reliable_client_queue.len(), 2);
    let r = c.process_packet(&reliable(0, vec![0]), KEY, false);
    assert_eq!(r.delivered, vec![vec![0], vec![11], vec![22]]);
    assert!(c.reliable_client_queue.is_empty());
    assert_eq!(c.reliable_client_counter, 3);
}

#[test]
fn duplicate_is_dropped() {
    let mut c = Connection::new(peer(), 1);
    c.process_packet(&reliable(2, vec![22]), KEY, false);
    let r = c.process_packet(&reliable(2, vec![99]), KEY, false);
    assert_eq!(r.event, PacketEvent::DuplicateDropped);
    assert!(r.delivered.is_empty());
    assert_eq!(c.reliable_client_queue.len(), 1);
    assert_eq!(c.reliable_client_queue[0].payload, vec![22]);
    let r = c.process_packet(&reliable(0, vec![0]), KEY, false);
    assert_eq!(r.delivered, vec![vec![0]]);
    let r = c.process_packet(&reliable(0, vec![0]), KEY, false);
    assert_eq!(r.event, PacketEvent::DuplicateDropped);
    assert!(r.delivered.is_empty());
}

#[test]
fn counter_wraps_around() {
    let mut c = Connection::new(peer(), 1);
    c.reliable_client_counter = 65535;
    let r = c.process_packet(&reliable(0, vec![2]), KEY, false);
    assert!(r.delivered.is_empty());
    let r = c.process_packet(&reliable(65535, vec![1]), KEY, false);
    assert_eq!(r.delivered, vec![vec![1], vec![2]]);
    assert_eq!(c.reliable_client_counter, 1);
}

#[test]
fn need_ack_is_acknowledged() {
    let mut c = Connection::new(peer(), 1);
    let r = c.process_packet(&packet(DATA, RELIABLE | NEED_ACK | HAS_SIZE, 0, vec![5]), KEY, false);
    assert_eq!(r.responses.len(), 1);
    let ack = &r.responses[0];
    assert_eq!(ack.header.types_and_flags.get_types(), DATA);
    assert_eq!(ack.header.types_and_flags.get_flags(), ACK);
    assert_eq!(ack.header.sequence_id, 0);
    assert!(ack.payload.is_empty());
    assert_eq!(r.delivered, vec![vec![5]]);
}

#[test]
fn unreliable_and_unsupported() {
    let mut c = Connection::new(peer(), 1);
    let r = c.process_packet(&packet(DATA, HAS_SIZE, 9, vec![7, 7]), KEY, false);
    assert_eq!(r.event, PacketEvent::UnreliableReceived);
    assert_eq!(r.delivered, vec![vec![7, 7]]);
    let r = c.process_packet(&packet(PING, NEED_ACK, 3, vec![]), KEY, false);
    assert_eq!(r.event, PacketEvent::UnsupportedType);
    assert!(r.responses.is_empty());
}

#[test]
fn acknowledgements_clear_pending_sends() {
    let mut c = Connection::new(peer(), 1);
    for i in 0..4u8 {
        let p = c.send_reliable(VirtualPort(0xA1), vec![i], KEY);
        assert_eq!(p.header.sequence_id, i as u16);
        assert_eq!(p.header.types_and_flags.get_flags(), RELIABLE | NEED_ACK | HAS_SIZE);
    }
    assert_eq!(c.pending_acks, vec![0, 1, 2, 3]);
    let r = c.process_packet(&packet(DATA, ACK, 1, vec![]), KEY, false);
    assert_eq!(r.event, PacketEvent::Acknowledged);
    assert_eq!(c.pending_acks, vec![0, 2, 3]);
    // substream 0, two more ids, base id 0, then ids 3 and 2
    let r = c.process_packet(&packet(DATA, MULTI_ACK, 0, vec![0, 2, 0, 0, 3, 0, 2, 0]), KEY, false);
    assert_eq!(r.event, PacketEvent::MultiAcknowledged);
    assert!(c.pending_acks.is_empty());
    let r = c.process_packet(&packet(DATA, MULTI_ACK, 0, vec![0, 2, 0]), KEY, false);
    assert_eq!(r.event, PacketEvent::MalformedMultiAck);
}

#[test]
fn first_contact_creates_one_connection() {
    let mut sock = SocketImpl::new(VirtualPort(0xA1), KEY.to_vec(), false);
    let (p1, _) = PrudpPacket::decode(&SYN_PACKET, 0).unwrap();
    let mut answers = 0;
    for _ in 0..8 {
        answers += sock.process_packet(peer(), &p1).responses.len();
    }
    assert_eq!(sock.connections.len(), 1);
    assert_eq!(answers, 1);
    let other = PrudpSockAddr { port: 2470, ..peer() };
    sock.process_packet_with_id(other, &p1, 42);
    assert_eq!(sock.connections.len(), 2);
    assert_eq!(sock.connections[1].id, 42);
    assert_eq!(sock.get_virual_port(), VirtualPort(0xA1));
}

#[test]
fn sockets_receive_only_their_own_port() {
    let mut router = Router::new();
    assert!(router.add_socket(SocketImpl::new(VirtualPort(0xA1), KEY.to_vec(), false)).is_ok());
    assert!(router.add_socket(SocketImpl::new(VirtualPort(0xA2), KEY.to_vec(), false)).is_ok());
    assert!(router.add_socket(SocketImpl::new(VirtualPort(0xA2), KEY.to_vec(), false)).is_err());

    let (routed, err) = router.process_datagram(0x7F00_0001, 2469, &SYN_PACKET);
    assert_eq!(err, None);
    assert_eq!(routed.len(), 1);
    assert!(routed[0].reaction.is_some());
    assert_eq!(router.sockets[0].connections.len(), 1);
    assert_eq!(router.sockets[1].connections.len(), 0);

    let mut to_second = SYN_PACKET;
    to_second[7] = 0xA2;
    router.process_datagram(0x7F00_0001, 2469, &to_second);
    assert_eq!(router.sockets[0].connections.len(), 1);
    assert_eq!(router.sockets[1].connections.len(), 1);

    let mut nowhere = SYN_PACKET;
    nowhere[7] = 0xA5;
    let (routed, _) = router.process_datagram(0x7F00_0001, 2469, &nowhere);
    assert!(routed[0].reaction.is_none());
    assert_eq!(routed[0].destination, VirtualPort(0xA5));

    router.remove_socket(VirtualPort(0xA2));
    router.remove_socket(VirtualPort(0xA2));
    assert_eq!(router.sockets.len(), 1);
    let (routed, _) = router.process_datagram(0x7F00_0001, 2469, &to_second);
    assert!(routed[0].reaction.is_none());
}

#[test]
fn strict_mode_checks_signatures() {
    let (p1, _) = PrudpPacket::decode(&SYN_PACKET, 0).unwrap();
    let mut c = Connection::new(peer(), 1);
    let r = c.process_packet(&p1, KEY, true);
    assert_eq!(r.event, PacketEvent::SynAnswered);
    let mut tampered = SYN_PACKET;
    tampered[14] ^= 1;
    let (p, _) = PrudpPacket::decode(&tampered, 0).unwrap();
    let r = c.process_packet(&p, KEY, true);
    assert_eq!(r.event, PacketEvent::BadSignature);
    assert!(r.responses.is_empty());
    let mut c = Connection::new(peer(), 1);
    let r = c.process_packet(&p, KEY, false);
    assert_eq!(r.event, PacketEvent::SynAnswered);
}

#[test]
fn second_syn_gets_no_answer() {
    let (p1, _) = PrudpPacket::decode(&SYN_PACKET, 0).unwrap();
    let mut c = Connection::new(peer(), 1);
    c.session_id = 3;
    let r = c.process_packet(&p1, KEY, false);
    assert_eq!(r.event, PacketEvent::SynAnswered);
    assert_eq!(r.responses.len(), 1);
    let r = c.process_packet(&p1, KEY, false);
    assert_eq!(r.event, PacketEvent::SynRepeated);
    assert!(r.responses.is_empty());
    assert_eq!(c.session_id, 3);
}

#[test]
fn unsupported_type_changes_nothing() {
    let mut c = Connection::new(peer(), 1);
    c.session_id = 9;
    c.client_signature = vec![4; 16];
    let r = c.process_packet(&packet(PING, 0, 3, vec![]), KEY, false);
    assert_eq!(r.event, PacketEvent::UnsupportedType);
    assert_eq!(c.session_id, 9);
    assert_eq!(c.client_signature, vec![4; 16]);
}

#[test]
fn datagram_packets_reach_their_socket_in_order() {
    let mut router = Router::new();
    router.add_socket(SocketImpl::new(VirtualPort(0xA1), KEY.to_vec(), false)).unwrap();
    let mut d = SYN_PACKET.to_vec();
    let mut nowhere = SYN_PACKET;
    nowhere[7] = 0xA5;
    d.extend_from_slice(&nowhere);
    d.extend_from_slice(&CONNECT_PACKET);
    d.extend_from_slice(&[0xEA, 0xD0]);
    let (routed, err) = router.process_datagram(0x7F00_0001, 2469, &d);
    assert!(err.is_some());
    assert_eq!(routed.len(), 3);
    assert_eq!(routed[0].packet.encode(), SYN_PACKET.to_vec());
    assert_eq!(routed[0].peer, peer());
    assert_eq!(routed[0].reaction.as_ref().unwrap().event, PacketEvent::SynAnswered);
    assert!(routed[1].reaction.is_none());
    assert_eq!(routed[2].packet.encode(), CONNECT_PACKET.to_vec());
    assert_eq!(routed[2].reaction.as_ref().unwrap().event, PacketEvent::Connected);
    assert_eq!(router.sockets[0].connections.len(), 1);
    assert_eq!(router.sockets[0].connections[0].session_id, 249);
}
