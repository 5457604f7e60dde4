use prudp::packet::{
    FramingError, PacketOption, PrudpHeader, PrudpPacket, TypesAndFlags, VirtualPort, CONNECT, DATA,
    HAS_SIZE, NEED_ACK, RELIABLE, SYN,
};
use prudp::router::decode_datagram;
use prudp::signature::{calculate_signature, key_sum};
use rc4::{KeyInit, Rc4, StreamCipher};

const SYN_PACKET: [u8; 57] = [
    234, 208, 1, 27, 0, 0, 175, 161, 192, 0, 0, 0, 0, 0, 36, 21, 233, 179, 203, 154, 57, 222, 219, 9, 21, 2,
    29, 172, 56, 92, 0, 4, 4, 1, 0, 0, 1, 16, 0, 0, 0, 0, 0, 0, 0, 0, 0, 0, 0, 0, 0, 0, 0, 0, 4, 1, 0,
];
const CONNECT_PACKET: [u8; 61] = [
    234, 208, 1, 31, 0, 0, 175, 161, 225, 0, 249, 0, 1, 0, 40, 168, 31, 138, 58, 193, 30, 134, 3, 232, 205,
    245, 28, 155, 193, 198, 0, 4, 0, 0, 0, 0, 1, 16, 211, 240, 113, 188, 227, 114, 114, 30, 157, 179, 246, 55,
    233, 240, 44, 197, 3, 2, 247, 244, 4, 1, 0,
];

fn sample_packet() -> PrudpPacket {
    PrudpPacket {
        header: PrudpHeader {
            source_port: VirtualPort::new(15, 10),
            destination_port: VirtualPort::new(1, 10),
            types_and_flags: TypesAndFlags::from_parts(DATA, RELIABLE | NEED_ACK | HAS_SIZE),
            session_id: 7,
            substream_id: 0,
            sequence_id: 0x1234,
        },
        signature: (0u8..16).collect(),
        options: vec![PacketOption::FragmentId(0), PacketOption::InitialSequenceId(0xBEEF)],
        payload: vec![1, 2, 3, 4, 5],
    }
}

#[test]
fn captured_syn_decodes_and_reencodes() {
    let (p, next) = PrudpPacket::decode(&SYN_PACKET, 0).unwrap();
    assert_eq!(next, SYN_PACKET.len());
    assert_eq!(p.header.types_and_flags.get_types(), SYN);
    assert_eq!(p.header.types_and_flags.get_flags(), NEED_ACK | HAS_SIZE);
    assert_eq!(p.header.source_port.get_stream_type(), 10);
    assert_eq!(p.header.source_port.get_port_number(), 15);
    assert_eq!(p.header.destination_port.get_port_number(), 1);
    assert_eq!(p.options.len(), 3);
    assert!(matches!(p.options[0], PacketOption::SupportedFunctions(0x104)));
    assert!(matches!(p.options[2], PacketOption::MaximumSubstreamId(0)));
    assert_eq!(p.to_bytes().unwrap(), SYN_PACKET.to_vec());
}

#[test]
fn captured_connect_decodes_and_reencodes() {
    let (p, next) = PrudpPacket::decode(&CONNECT_PACKET, 0).unwrap();
    assert_eq!(next, CONNECT_PACKET.len());
    assert_eq!(p.header.types_and_flags.get_types(), CONNECT);
    assert_eq!(p.header.session_id, 249);
    assert_eq!(p.header.sequence_id, 1);
    assert!(matches!(p.options[2], PacketOption::InitialSequenceId(0xF4F7)));
    assert_eq!(p.encode(), CONNECT_PACKET.to_vec());
}

#[test]
fn built_packet_round_trips() {
    let p = sample_packet();
    let bytes = p.to_bytes().unwrap();
    assert_eq!(bytes.len(), 30 + 3 + 4 + 5);
    assert_eq!(&bytes[..2], &[0xEA, 0xD0]);
    assert_eq!(&bytes[12..14], &[0x34, 0x12]);
    let (q, next) = PrudpPacket::decode(&bytes, 0).unwrap();
    assert_eq!(next, bytes.len());
    assert_eq!(q.header, p.header);
    assert_eq!(q.signature, p.signature);
    assert_eq!(q.payload, p.payload);
    assert!(matches!(q.options[1], PacketOption::InitialSequenceId(0xBEEF)));
    assert_eq!(q.encode(), bytes);
}

#[test]
fn signature_of_captured_syn_matches() {
    let (p, _) = PrudpPacket::decode(&SYN_PACKET, 0).unwrap();
    let sig = calculate_signature(&p, b"6f599f81", &[], &[]);
    assert_eq!(sig, SYN_PACKET[14..30].to_vec());
    assert!(p.verify_signature(b"6f599f81", &[], &[]));
    assert!(!p.verify_signature(b"6f599f82", &[], &[]));
}

#[test]
fn assigned_signature_is_verified() {
    let mut p = sample_packet();
    p.calculate_and_assign_signature(b"6f599f81", &[], &[9; 16]);
    assert_ne!(p.signature, (0u8..16).collect::<Vec<u8>>());
    assert!(p.verify_signature(b"6f599f81", &[], &[9; 16]));
    assert!(!p.verify_signature(b"6f599f81", &[], &[]));
}

#[test]
fn framing_errors() {
    assert_eq!(PrudpPacket::decode(&SYN_PACKET[..20], 0).unwrap_err(), FramingError::Truncated);
    assert_eq!(PrudpPacket::decode(&SYN_PACKET[..50], 0).unwrap_err(), FramingError::Truncated);
    let mut bad = SYN_PACKET;
    bad[0] = 0xEB;
    assert_eq!(PrudpPacket::decode(&bad, 0).unwrap_err(), FramingError::BadMagic);
    let mut bad = SYN_PACKET;
    bad[30] = 9;
    assert_eq!(PrudpPacket::decode(&bad, 0).unwrap_err(), FramingError::BadOption);
    let mut bad = SYN_PACKET;
    bad[31] = 3;
    assert_eq!(PrudpPacket::decode(&bad, 0).unwrap_err(), FramingError::BadOption);
}

#[test]
fn unencodable_packet_is_refused() {
    let mut p = sample_packet();
    p.options.push(PacketOption::ConnectionSignature(vec![1, 2, 3]));
    assert!(p.to_bytes().is_none());
    let mut p = sample_packet();
    p.signature.pop();
    assert!(p.to_bytes().is_none());
}

#[test]
fn datagram_with_several_packets() {
    let mut d = SYN_PACKET.to_vec();
    d.extend_from_slice(&CONNECT_PACKET);
    let (ps, err) = decode_datagram(&d);
    assert_eq!(ps.len(), 2);
    assert_eq!(err, None);
    assert_eq!(ps[1].header.session_id, 249);
    d.extend_from_slice(&[0xEA, 0xD0, 1]);
    let (ps, err) = decode_datagram(&d);
    assert_eq!(ps.len(), 2);
    assert_eq!(err, Some(FramingError::Truncated));
    let (ps, err) = decode_datagram(&[]);
    assert!(ps.is_empty());
    assert_eq!(err, None);
}

fn from_hex_stream(val: &str) -> Vec<u8> {
    val.as_bytes()
        .chunks_exact(2)
        .map(|c| u8::from_str_radix(std::str::from_utf8(c).unwrap(), 16).unwrap())
        .collect()
}

fn decrypt(payload: &mut [u8]) {
    let mut rc4: Rc4<rc4::consts::U5> = Rc4::new_from_slice("CD&ML".as_bytes()).unwrap();
    rc4.apply_keystream(payload);
}

#[test]
fn simulate_packets() {
    let val = from_hex_stream("ead001037d00afa1e200a5000200d9e4a4050368c18c6de4e2fb1cc40f0c020100768744db99f92c5005a061fd2a1df280cd64d5c1a565952c6befa607cbaf34661312b16db0fa6fccfb81e28b5a3a9bed02b49152bbc99cc112b7e29b9e45ec3d4b89df0fe71390883d9a927c264d07ada0de9cd28499e3ccdf3fd079e4a9848d4d783778c42da2af06106a7326634dc5bec5c3438ef18e30109839ffcc");
    let (mut packet, next) = PrudpPacket::decode(&val, 0).expect("invalid packet");
    assert_eq!(next, val.len());
    assert!(matches!(packet.options[0], PacketOption::FragmentId(0)));
    decrypt(&mut packet.payload);
    let size = u32::from_le_bytes([packet.payload[0], packet.payload[1], packet.payload[2], packet.payload[3]]);
    assert_eq!(size as usize, packet.payload.len() - 4);
}

#[test]
fn simulate_packets_response() {
    let val = from_hex_stream("ead001032501a1af6200a500010013ffcdbc3a2ebc44efc6e38ea32a72b40201002e8644db19fe2a5005a2637d2a16f3b1fe5633037c1ed61c5aefad8afebdf2ff8600e9350fba1298b570c70f6dd647eac2d3faf0ab74ef761e2ee43dc10e249e5f91aed6813dcc04b3c707d9442b6e353b9b0b654e98f860fe5379c41d3c2a1874b7dd37ebf499e03bd2fd3e9a9203c0959feb760c38f504dcd0c9e99b17fd410657da4efa3e01c8a68ab3042d6d489788d5580778d32249cdf1fba8bf68cf4019d116ea7c580622ea1e3635139d91b44635d5e95b6c35b33898fdc0117fa6fc7162840d07a49f1e7089aa0ea65409a8ddeb2334449ba73a0ff7de462cf4a706a696de0f0521b84ae5a3f8587f3585d202d3cc0fb0451519c1b830b5e3cdd6de52e9add7325cbbf08a7c2f8b875934942b226703a22b4bc8931932dab055049051e4144b02");
    let (mut packet, next) = PrudpPacket::decode(&val, 0).expect("invalid packet");
    assert_eq!(next, val.len());
    assert_eq!(packet.encode(), val);
    decrypt(&mut packet.payload);
    let size = u32::from_le_bytes([packet.payload[0], packet.payload[1], packet.payload[2], packet.payload[3]]);
    assert_eq!(size as usize, packet.payload.len() - 4);
}

#[test]
fn access_key_sum() {
    assert_eq!(key_sum(b"6f599f81"), 530);
    assert_eq!(key_sum(&[]), 0);
    assert_eq!(key_sum(&[255; 4]), 1020);
}
