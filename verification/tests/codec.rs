use routing_codec::bare::{read_slice, read_str, read_varint, size_of_varint, write_slice, write_str, write_varint};
use routing_codec::route::{Address, Route};
use routing_codec::transport_message::{ProtocolError, TransportMessage};

fn route_of(names: &[&str]) -> Route {
    let addresses = names
        .iter()
        .map(|n| Address::new(0, n.as_bytes().to_vec()))
        .collect();
    Route { addresses }
}

#[test]
fn encode_decode_transport_message() {
    let mut msg = TransportMessage::v1(
        route_of(&["onward", "route!"]),
        route_of(&["return", "route!"]),
        "hello".as_bytes().to_vec(),
    );
    msg.tracing_context = Some("tracing context".as_bytes().to_vec());
    let encoded = msg.clone().encode().unwrap();
    let decoded = TransportMessage::decode(&encoded).unwrap();
    assert_eq!(msg, decoded);
}

#[test]
fn can_decode_older_serialized_version() {
    let msg = TransportMessage::v1(
        route_of(&["onward", "route!"]),
        route_of(&["return", "route!"]),
        "hello".as_bytes().to_vec(),
    );
    let encoded = msg.clone().encode().unwrap();
    // A tracing-unaware encoder writes no trailing region at all: the
    // optional region of this token-free envelope is the single
    // presence byte, so stripping it gives the older wire form.
    let older = &encoded[..encoded.len() - 1];
    let decoded = TransportMessage::decode(older).unwrap();
    assert_eq!(decoded.version, 1);
    assert_eq!(decoded.onward_route, route_of(&["onward", "route!"]));
    assert_eq!(decoded.return_route, route_of(&["return", "route!"]));
    assert_eq!(decoded.payload, "hello".as_bytes().to_vec());
    assert!(decoded.tracing_context.is_none());
}

#[test]
fn v1_concrete_roundtrip() {
    let msg = TransportMessage::v1(
        route_of(&["n1", "n2"]),
        route_of(&["n0"]),
        b"hello".to_vec(),
    );
    let encoded = msg.clone().encode().unwrap();
    let decoded = TransportMessage::decode(&encoded).unwrap();
    assert_eq!(decoded.version, 1);
    assert_eq!(decoded.onward_route, route_of(&["n1", "n2"]));
    assert_eq!(decoded.return_route, route_of(&["n0"]));
    assert_eq!(decoded.payload, b"hello".to_vec());
    assert!(decoded.tracing_context.is_none());
    assert_eq!(msg, decoded);
}

#[test]
fn empty_message_exact_bytes() {
    let msg = TransportMessage::v1(
        Route { addresses: vec![] },
        Route { addresses: vec![] },
        vec![],
    );
    let encoded = msg.encode().unwrap();
    // version 1; zero onward addresses; zero return addresses; empty
    // payload; presence byte 0.
    assert_eq!(encoded, vec![1, 0, 0, 0, 0]);
}

#[test]
fn unknown_flag_byte_is_tolerated() {
    let msg = TransportMessage::v1(route_of(&["n1"]), route_of(&[]), b"pay".to_vec());
    let encoded = msg.clone().encode().unwrap();
    let mut altered = encoded[..encoded.len() - 1].to_vec();
    altered.push(7);
    altered.extend_from_slice(&[0xde, 0xad, 0xbe, 0xef]);
    let decoded = TransportMessage::decode(&altered).unwrap();
    assert_eq!(msg, decoded);
    assert!(decoded.tracing_context.is_none());
}

#[test]
fn truncation_before_payload_always_fails() {
    let onward = route_of(&["n1", "n2"]);
    let ret = route_of(&["n0"]);
    let boundary = 1 + onward.encoded_size().unwrap() + ret.encoded_size().unwrap();
    let msg = TransportMessage::v1(onward, ret, b"hello".to_vec());
    let encoded = msg.encode().unwrap();
    for i in 0..=boundary {
        let decoded = TransportMessage::decode(&encoded[..i]);
        assert_eq!(decoded, Err(ProtocolError::DecodeFailed));
    }
}

#[test]
fn non_utf8_token_reported_absent() {
    let mut msg = TransportMessage::v1(route_of(&["n1"]), route_of(&[]), b"x".to_vec());
    msg.tracing_context = Some(vec![0xff, 0xfe, 0x80]);
    let encoded = msg.clone().encode().unwrap();
    let decoded = TransportMessage::decode(&encoded).unwrap();
    assert!(decoded.tracing_context.is_none());
    assert_eq!(decoded.payload, msg.payload);
}

#[test]
fn decode_rejects_garbage() {
    assert!(TransportMessage::decode(&[]).is_err());
    // A count that claims more addresses than the buffer holds.
    assert!(TransportMessage::decode(&[1, 200]).is_err());
    assert!(TransportMessage::decode(&[1, 5, 0, 0, 0]).is_err());
}

#[test]
fn varint_roundtrip_edges() {
    for value in [0u64, 1, 127, 128, 300, 16383, 16384, u64::MAX] {
        let mut buf: Vec<u8> = Vec::new();
        write_varint(&mut buf, value);
        assert_eq!(buf.len(), size_of_varint(value));
        let mut pos = 0;
        assert_eq!(read_varint(&buf, &mut pos), Some(value));
        assert_eq!(pos, buf.len());
    }
    assert_eq!(size_of_varint(127), 1);
    assert_eq!(size_of_varint(128), 2);
    assert_eq!(size_of_varint(16383), 2);
    assert_eq!(size_of_varint(16384), 3);
    assert_eq!(size_of_varint(u64::MAX), 10);
}

#[test]
fn varint_single_bytes() {
    let mut buf: Vec<u8> = Vec::new();
    write_varint(&mut buf, 5);
    assert_eq!(buf, vec![5]);
    let mut buf: Vec<u8> = Vec::new();
    write_varint(&mut buf, 300);
    // 300 = 44 + 2 * 128: low group 44 with the continuation bit, then 2.
    assert_eq!(buf, vec![44 + 128, 2]);
}

#[test]
fn varint_truncated_is_none() {
    let mut pos = 0;
    assert_eq!(read_varint(&[0x80, 0x80], &mut pos), None);
    let mut pos = 0;
    assert_eq!(read_varint(&[], &mut pos), None);
}

#[test]
fn slice_roundtrip_and_truncation() {
    let mut buf: Vec<u8> = Vec::new();
    write_slice(&mut buf, b"abc");
    assert_eq!(buf, vec![3, b'a', b'b', b'c']);
    let mut pos = 0;
    assert_eq!(read_slice(&buf, &mut pos), Some(&b"abc"[..]));
    assert_eq!(pos, 4);
    // A declared length past the end of the buffer is rejected.
    let mut pos = 0;
    assert_eq!(read_slice(&[5, 1, 2, 3], &mut pos), None);
}

#[test]
fn str_roundtrip_and_utf8_validation() {
    let mut buf: Vec<u8> = Vec::new();
    write_str(&mut buf, "hi there");
    let mut pos = 0;
    assert_eq!(read_str(&buf, &mut pos), Some("hi there".to_string()));
    assert_eq!(pos, buf.len());
    // Invalid UTF-8 yields no result rather than a repaired string.
    let mut pos = 0;
    assert_eq!(read_str(&[2, 0xff, 0xfe], &mut pos), None);
}

#[test]
fn route_stack_lockstep() {
    let mut onward = route_of(&["n1", "n2", "n3"]);
    let mut ret = route_of(&[]);
    let n = onward.len();
    for k in 0..n {
        let popped = onward.pop_front().unwrap();
        ret.push_front(popped);
        assert_eq!(onward.len(), n - k - 1);
        assert_eq!(ret.len(), k + 1);
    }
    assert!(onward.is_empty());
    assert_eq!(onward.pop_front(), None);
    assert_eq!(ret, route_of(&["n3", "n2", "n1"]));
}

#[test]
fn forward_rewrites_routes() {
    let msg = TransportMessage::v1(route_of(&["n1", "n2"]), route_of(&[]), b"p".to_vec());
    let me = Address::new(0, b"me".to_vec());
    let (msg, next) = msg.forward(me).unwrap();
    assert_eq!(next, Address::new(0, b"n1".to_vec()));
    assert_eq!(msg.onward_route, route_of(&["n2"]));
    assert_eq!(msg.return_route, route_of(&["me"]));
    let me2 = Address::new(0, b"me2".to_vec());
    let (msg, next) = msg.forward(me2).unwrap();
    assert_eq!(next, Address::new(0, b"n2".to_vec()));
    assert!(msg.onward_route.is_empty());
    assert_eq!(msg.return_route, route_of(&["me2", "me"]));
    let me3 = Address::new(0, b"me3".to_vec());
    assert!(msg.forward(me3).is_none());
}

#[test]
fn tracing_context_functions() {
    let msg = TransportMessage::v1(route_of(&["n1"]), route_of(&[]), b"p".to_vec());
    let traced = msg.start_new_tracing_context(b"00-1234-5678-01");
    assert_eq!(traced.version, 1);
    assert_eq!(traced.onward_route, route_of(&["n1"]));
    assert_eq!(traced.payload, b"p".to_vec());
    assert!(traced.tracing_context.is_some());
    let token = traced.tracing_context.clone().unwrap();
    assert_eq!(traced.tracing_context(), token);
}
