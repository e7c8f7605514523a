//! Wire-level tests of the packet codec: scenario decodes, round trips
//! for every packet variant, and every error kind.
use bytes::Bytes;

use mqtt_codec::packet::ack;
use mqtt_codec::packet::connect::{Connect, ConnectFlags};
use mqtt_codec::packet::fixed_header::{FixedHeader, FixedHeaderControlOptions};
use mqtt_codec::packet::publish::Publish;
use mqtt_codec::packet::subscribe::Subscribe;
use mqtt_codec::packet::unsubscribe::Unsubscribe;
use mqtt_codec::packet::{self, ConnAck, ConnAckFlags, Packet, SubAck, Type};
use mqtt_codec::utils::topic::Topic;
use mqtt_codec::{Error, FieldName, QosLevel};

fn opts(packet_type: u8, dup: bool, qos: u8, retain: bool) -> FixedHeaderControlOptions {
    FixedHeaderControlOptions { packet_type, dup, qos, retain }
}

fn header(packet_type: u8, qos: u8, retain: bool, remaining_len: u32) -> FixedHeader {
    FixedHeader { remaining_len, opts: opts(packet_type, false, qos, retain) }
}

/// A CONNECT packet on the wire: keepalive 60, client id "myPy",
/// username "client", password "pass". Remaining length 30.
fn connect_bytes() -> Vec<u8> {
    let mut v = vec![
        0x10, 30, // fixed header
        0, 4, b'M', b'Q', b'T', b'T', 4,    // protocol name + version
        0xC2, // username, password, clean session
        0, 60, // keepalive
    ];
    v.extend_from_slice(&[0, 4]);
    v.extend_from_slice(b"myPy");
    v.extend_from_slice(&[0, 6]);
    v.extend_from_slice(b"client");
    v.extend_from_slice(&[0, 4]);
    v.extend_from_slice(b"pass");
    v
}

/// A PUBLISH packet on the wire: topic "info", QoS 1, retain, packet
/// id 2, payload "Cedalo". Remaining length 2 + 4 + 2 + 6 = 14.
fn publish_bytes() -> Vec<u8> {
    let mut v = vec![0x33, 14, 0, 4];
    v.extend_from_slice(b"info");
    v.extend_from_slice(&[0, 2]);
    v.extend_from_slice(b"Cedalo");
    v
}

/// A SUBSCRIBE packet on the wire: packet id 1, one topic "mytopic"
/// with QoS 1. Remaining length 2 + 2 + 7 + 1 = 12.
fn subscribe_bytes() -> Vec<u8> {
    let mut v = vec![0x82, 12, 0, 1, 0, 7];
    v.extend_from_slice(b"mytopic");
    v.push(1);
    v
}

/// An UNSUBSCRIBE packet on the wire: packet id 1, one topic "mytopic"
/// (no QoS byte). Remaining length 2 + 2 + 7 = 11.
fn unsubscribe_bytes() -> Vec<u8> {
    let mut v = vec![0xA2, 11, 0, 1, 0, 7];
    v.extend_from_slice(b"mytopic");
    v
}

#[test]
fn test_decode_remaining_length() {
    let v = hex::decode("1e").expect("unable to decode hex string");
    let mut buf = Bytes::from(v);
    assert_eq!(30, FixedHeader::decode_remaining_length(&mut buf).unwrap());
}

#[test]
fn test_read_fixed_header() {
    let v = hex::decode("101e").expect("unable to decode hex string");
    let mut buf = Bytes::from(v);
    let fh = FixedHeader::read(&mut buf).unwrap();
    assert_eq!(Type::CONNECT.to_u8(), fh.opts.packet_type());
    assert!(!fh.opts.retain());
    assert!(!fh.opts.dup());
    assert_eq!(0, fh.opts.qos());
    assert_eq!(30, fh.remaining_len);
}

#[test]
fn ack_test_read() {
    let mut buf = Bytes::from(vec![0x40, 2, 0, 5]);
    let h = FixedHeader::read(&mut buf).unwrap();
    let p = ack::read_packet(&mut buf, &h).unwrap();
    assert_eq!(5, p.packet_id);
    assert_eq!(Type::PUBACK.to_u8(), p.header.opts.packet_type());
}

#[test]
fn connect_test_read() {
    let mut buf = Bytes::from(connect_bytes());
    let h = FixedHeader::read(&mut buf).unwrap();
    let packet = mqtt_codec::packet::connect::read_packet(&mut buf, &h).unwrap();
    assert_eq!(60, packet.keepalive);
    assert_eq!("myPy", packet.client_id);
    assert_eq!("client", packet.username);
    assert_eq!("pass", packet.password);
}

#[test]
fn test_write() {
    // Encoding a CONNECT and decoding the bytes again must reproduce
    // exactly the original field values.
    let p = Connect {
        header: header(1, 0, false, 30),
        flags: ConnectFlags {
            username: true,
            password: true,
            will_retain: false,
            will_qos: 0,
            will: false,
            clean_session: true,
            reserved: false,
        },
        keepalive: 60,
        client_id: String::from("myPy"),
        password: String::from("pass"),
        username: String::from("client"),
        will_message: String::new(),
        will_topic: String::new(),
    };
    let mut out: Vec<u8> = Vec::new();
    Connect::write(&p, &mut out).unwrap();
    assert_eq!(connect_bytes(), out);
    let mut buf = Bytes::from(out);
    let h = FixedHeader::read(&mut buf).unwrap();
    let q = mqtt_codec::packet::connect::read_packet(&mut buf, &h).unwrap();
    assert_eq!(60, q.keepalive);
    assert_eq!("myPy", q.client_id);
    assert_eq!("client", q.username);
    assert_eq!("pass", q.password);
    assert_eq!(p, q);
}

#[test]
fn publish_test_read() {
    let mut buf = Bytes::from(publish_bytes());
    let h = FixedHeader::read(&mut buf).unwrap();
    let packet = mqtt_codec::packet::publish::read_packet(&mut buf, &h).unwrap();
    assert_eq!(Type::PUBLISH.to_u8(), packet.header.opts.packet_type());
    assert!(packet.header.opts.retain());
    assert_eq!(QosLevel::AtLeastOnce.as_u8(), packet.header.opts.qos());
    assert_eq!(14, packet.header.remaining_len);
    assert_eq!(4, packet.topic.len());
    assert_eq!("info", packet.topic);
    assert_eq!(2, packet.packet_id);
    assert_eq!(6, packet.payload.len());
    assert_eq!(b"Cedalo".to_vec(), packet.payload);
}

#[test]
fn subscribe_test_read() {
    let mut buf = Bytes::from(subscribe_bytes());
    let h = FixedHeader::read(&mut buf).unwrap();
    let packet = mqtt_codec::packet::subscribe::read_packet(&mut buf, &h).unwrap();
    assert_eq!(Type::SUBSCRIBE.to_u8(), packet.header.opts.packet_type());
    assert_eq!(1, packet.packet_id);
    assert_eq!(1, packet.topics.len());
    assert_eq!(Topic::new_from_params("mytopic".to_string(), 1), packet.topics[0]);
}

#[test]
fn unsubscribe_test_read() {
    // The UNSUBSCRIBE topic list carries no QoS byte, so a decoded
    // entry always holds zero there.
    let mut buf = Bytes::from(unsubscribe_bytes());
    let h = FixedHeader::read(&mut buf).unwrap();
    let packet = mqtt_codec::packet::unsubscribe::read_packet(&mut buf, &h).unwrap();
    assert_eq!(Type::UNSUBSCRIBE.to_u8(), packet.header.opts.packet_type());
    assert_eq!(1, packet.packet_id);
    assert_eq!(1, packet.topics.len());
    assert_eq!(Topic::new_from_params("mytopic".to_string(), 0), packet.topics[0]);
}

#[test]
fn test_new() {
    let cases: Vec<(Vec<u8>, Type)> = vec![
        (connect_bytes(), Type::CONNECT),
        (publish_bytes(), Type::PUBLISH),
        (subscribe_bytes(), Type::SUBSCRIBE),
        (unsubscribe_bytes(), Type::UNSUBSCRIBE),
    ];
    for (bytes, t) in cases {
        let mut buf = Bytes::from(bytes);
        let p = packet::new(&mut buf).unwrap();
        let matches_type = match (&p, t) {
            (Packet::Connect(_), Type::CONNECT) => true,
            (Packet::Publish(_), Type::PUBLISH) => true,
            (Packet::Subscribe(_), Type::SUBSCRIBE) => true,
            (Packet::Unsubscribe(_), Type::UNSUBSCRIBE) => true,
            _ => false,
        };
        assert!(matches_type);
    }
}

#[test]
fn varint_roundtrip_bounds() {
    for n in [0u32, 1, 127, 128, 300, 16383, 16384, 2097151, 2097152, 268435455] {
        let mut out: Vec<u8> = Vec::new();
        FixedHeader::encode_remaining_length(n, &mut out).unwrap();
        assert!(out.len() >= 1 && out.len() <= 4);
        let mut buf = Bytes::from(out);
        assert_eq!(n, FixedHeader::decode_remaining_length(&mut buf).unwrap());
    }
}

#[test]
fn varint_minimal_lengths() {
    for (n, len) in [(0u32, 1usize), (127, 1), (128, 2), (16383, 2), (16384, 3), (2097151, 3), (2097152, 4), (268435455, 4)] {
        let mut out: Vec<u8> = Vec::new();
        FixedHeader::encode_remaining_length(n, &mut out).unwrap();
        assert_eq!(len, out.len());
    }
}

#[test]
fn varint_five_continuation_bytes_rejected() {
    let mut buf = Bytes::from(vec![0x80u8, 0x80, 0x80, 0x80, 0x01]);
    assert_eq!(Err(Error::MalformedVarInt), FixedHeader::decode_remaining_length(&mut buf));
}

#[test]
fn varint_encode_above_range_rejected() {
    let mut out: Vec<u8> = Vec::new();
    assert_eq!(
        Err(Error::ValueOutOfRange),
        FixedHeader::encode_remaining_length(268435456, &mut out)
    );
    assert!(out.is_empty());
}

#[test]
fn varint_exact_encoding() {
    // 321 = 65 + 2 * 128: low seven bits first, continuation bit set.
    let mut out: Vec<u8> = Vec::new();
    FixedHeader::encode_remaining_length(321, &mut out).unwrap();
    assert_eq!(vec![0xC1u8, 0x02], out);
}

#[test]
fn unknown_packet_type_rejected() {
    let mut low = Bytes::from(vec![0x00u8, 0x00]);
    assert_eq!(Err(Error::UnknownPacketType), packet::new(&mut low));
    let mut high = Bytes::from(vec![0xF0u8, 0x00]);
    assert_eq!(Err(Error::UnknownPacketType), packet::new(&mut high));
}

#[test]
fn publish_short_remaining_length_rejected() {
    // Remaining length 3 cannot even cover the topic named by its own
    // length prefix: this must fail cleanly, never panic or over-read.
    let bytes = vec![0x33u8, 3, 0, 4, b'i', b'n', b'f', b'o'];
    let mut buf = Bytes::from(bytes);
    assert_eq!(Err(Error::MalformedPacket), packet::new(&mut buf));
}

#[test]
fn truncated_input_rejected() {
    let mut buf = Bytes::from(vec![0x40u8, 2, 0]);
    assert_eq!(Err(Error::MalformedPacket), packet::new(&mut buf));
}

#[test]
fn ack_wrong_remaining_length_rejected() {
    let mut buf = Bytes::from(vec![0x40u8, 3, 0, 5, 9]);
    assert_eq!(Err(Error::MalformedPacket), packet::new(&mut buf));
}

#[test]
fn connect_wrong_protocol_name_rejected() {
    let mut bytes = connect_bytes();
    bytes[4] = b'X';
    let mut buf = Bytes::from(bytes);
    assert_eq!(Err(Error::MalformedPacket), packet::new(&mut buf));
}

#[test]
fn invalid_utf8_topic_rejected() {
    let bytes = vec![0x30u8, 4, 0, 2, 0xFF, 0xFE];
    let mut buf = Bytes::from(bytes);
    assert_eq!(
        Err(Error::InvalidUtf8(FieldName::PublishTopic)),
        packet::new(&mut buf)
    );
}

#[test]
fn oversized_topic_rejected_on_write() {
    let p = Subscribe {
        header: header(8, 0, false, 0),
        packet_id: 1,
        topics: vec![Topic::new_from_params("x".repeat(70000), 0)],
    };
    let mut out: Vec<u8> = Vec::new();
    assert_eq!(Err(Error::ValueOutOfRange), p.write(&mut out));
    assert!(out.is_empty());
}

#[test]
fn ping_with_nonzero_remaining_length_rejected() {
    let mut buf = Bytes::from(vec![0xC0u8, 1, 0]);
    assert_eq!(Err(Error::MalformedPacket), packet::new(&mut buf));
}

fn roundtrip(p: Packet) {
    let mut out: Vec<u8> = Vec::new();
    packet::write(&p, &mut out).unwrap();
    let mut buf = Bytes::from(out);
    let q = packet::new(&mut buf).unwrap();
    assert_eq!(p, q);
    assert_eq!(0, bytes::Buf::remaining(&buf));
}

#[test]
fn roundtrip_connect_with_will() {
    roundtrip(Packet::Connect(Connect {
        header: header(1, 0, false, 10 + 5 + 5 + 6 + 5 + 8),
        flags: ConnectFlags {
            username: true,
            password: true,
            will_retain: true,
            will_qos: 2,
            will: true,
            clean_session: false,
            reserved: false,
        },
        keepalive: 30,
        client_id: String::from("abc"),
        password: String::from("secret"),
        username: String::from("nat"),
        will_message: String::from("gone"),
        will_topic: String::from("bye"),
    }));
}

#[test]
fn roundtrip_connack() {
    roundtrip(Packet::ConnAck(ConnAck {
        header: header(2, 0, false, 2),
        flags: ConnAckFlags { reserved: 0, session_present: true },
    }));
}

#[test]
fn roundtrip_publish_qos0() {
    roundtrip(Packet::Publish(Publish {
        header: header(3, 0, false, 2 + 1 + 3),
        packet_id: 0,
        topic: String::from("t"),
        payload: vec![1, 2, 3],
    }));
}

#[test]
fn roundtrip_publish_qos2_retain() {
    roundtrip(Packet::Publish(Publish {
        header: FixedHeader { remaining_len: 2 + 1 + 2 + 0, opts: opts(3, true, 2, true) },
        packet_id: 9,
        topic: String::from("t"),
        payload: Vec::new(),
    }));
}

#[test]
fn roundtrip_acks() {
    for (t, wrap) in [
        (4u8, Packet::PubAck as fn(ack::Ack) -> Packet),
        (5, Packet::PubRec),
        (6, Packet::PubRel),
        (7, Packet::PubComp),
        (11, Packet::UnsubAck),
    ] {
        roundtrip(wrap(ack::Ack { header: header(t, 0, false, 2), packet_id: 77 }));
    }
}

#[test]
fn roundtrip_subscribe_two_topics() {
    roundtrip(Packet::Subscribe(Subscribe {
        header: header(8, 1, false, 2 + 4 + 5),
        packet_id: 7,
        topics: vec![
            Topic::new_from_params(String::from("a"), 0),
            Topic::new_from_params(String::from("bc"), 2),
        ],
    }));
}

#[test]
fn roundtrip_suback() {
    roundtrip(Packet::SubAck(SubAck {
        header: header(9, 0, false, 2 + 4),
        packet_id: 7,
        return_codes: vec![0, 2],
    }));
}

#[test]
fn roundtrip_unsubscribe() {
    roundtrip(Packet::Unsubscribe(Unsubscribe {
        header: header(10, 1, false, 2 + 3),
        packet_id: 4,
        topics: vec![Topic::new_from_params(String::from("a"), 0)],
    }));
}

#[test]
fn roundtrip_zero_payload_packets() {
    roundtrip(Packet::PingReq(header(12, 0, false, 0)));
    roundtrip(Packet::PingResp(header(13, 0, false, 0)));
    roundtrip(Packet::Disconnect(header(14, 0, false, 0)));
}

#[test]
fn subscribe_empty_topic_name() {
    // A zero-length topic name is structurally decodable: length
    // prefix 0, then the QoS byte alone.
    let mut buf = Bytes::from(vec![0x82u8, 5, 0, 1, 0, 0, 1]);
    let p = packet::new(&mut buf).unwrap();
    match p {
        Packet::Subscribe(s) => {
            assert_eq!(1, s.topics.len());
            assert_eq!(Topic::new_from_params(String::new(), 1), s.topics[0]);
        },
        _ => panic!("expected a SUBSCRIBE packet"),
    }
}

#[test]
fn connect_empty_client_id() {
    // Remaining length 12: the fixed part and an empty client id.
    let v = vec![0x10u8, 12, 0, 4, b'M', b'Q', b'T', b'T', 4, 0x02, 0, 60, 0, 0];
    let mut buf = Bytes::from(v);
    match packet::new(&mut buf).unwrap() {
        Packet::Connect(c) => {
            assert_eq!("", c.client_id);
            assert_eq!(60, c.keepalive);
        },
        _ => panic!("expected a CONNECT packet"),
    }
}

#[test]
fn qos_level_wire_values() {
    assert_eq!(0, QosLevel::AtMostOnce.as_u8());
    assert_eq!(1, QosLevel::AtLeastOnce.as_u8());
    assert_eq!(2, QosLevel::ExactlyOnce.as_u8());
}

#[test]
fn type_from_u8_maps_all_wire_values() {
    assert_eq!(None, Type::from_u8(0));
    assert_eq!(None, Type::from_u8(15));
    for v in 1u8..=14 {
        let t = Type::from_u8(v).unwrap();
        assert_eq!(v, t.to_u8());
    }
}

#[test]
fn decoder_leaves_next_packet_in_buffer() {
    let mut bytes = vec![0xC0u8, 0];
    bytes.extend_from_slice(&[0xD0, 0]);
    let mut buf = Bytes::from(bytes);
    assert!(matches!(packet::new(&mut buf).unwrap(), Packet::PingReq(_)));
    assert!(matches!(packet::new(&mut buf).unwrap(), Packet::PingResp(_)));
    assert_eq!(0, bytes::Buf::remaining(&buf));
}
