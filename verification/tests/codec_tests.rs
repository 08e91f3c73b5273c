use vlawn::codec::{decode, encode};
use vlawn::hierarchy::Hierarchy;
use vlawn::message::{ForwardPayload, Message, Payload};
use vlawn::peer::{Ipv4Address, Peer};
use vlawn::room::Room;

fn addr(d: u8) -> Ipv4Address {
    Ipv4Address { octet0: 192, octet1: 168, octet2: 1, octet3: d }
}

fn peer(name: &str, d: u8) -> Peer {
    Peer::new(name.to_string(), addr(d))
}

#[test]
fn round_trip_join_req() {
    let m = Message::new(Payload::JoinReq(peer("alice", 2)));
    let bytes = encode(&m);
    assert_eq!(decode(&bytes), Some(m));
}

#[test]
fn round_trip_sync() {
    let room = Room {
        name: "quiet-harbor-waking".to_string(),
        hierarchy: Hierarchy(vec![peer("alice", 2), peer("bob", 3), peer("carol", 4)]),
    };
    let m = Message::new(Payload::Sync(room));
    let bytes = encode(&m);
    assert_eq!(decode(&bytes), Some(m));
}

#[test]
fn round_trip_sync_empty_hierarchy() {
    let room = Room { name: String::new(), hierarchy: Hierarchy(Vec::new()) };
    let m = Message::new(Payload::Sync(room));
    let bytes = encode(&m);
    assert_eq!(decode(&bytes), Some(m));
}

#[test]
fn round_trip_forward_text() {
    let m = Message::new(Payload::Forward(
        peer("alice", 2),
        ForwardPayload::Text("hello there".to_string()),
    ));
    let bytes = encode(&m);
    assert_eq!(decode(&bytes), Some(m));
}

#[test]
fn round_trip_forward_notification() {
    let m = Message::new(Payload::Forward(
        peer("bob", 9),
        ForwardPayload::Notification("bob joined".to_string()),
    ));
    let bytes = encode(&m);
    assert_eq!(decode(&bytes), Some(m));
}

#[test]
fn round_trip_unicode_text() {
    let m = Message::new(Payload::Forward(
        peer("héloïse", 7),
        ForwardPayload::Text("snow ☃ and crab 🦀".to_string()),
    ));
    let bytes = encode(&m);
    assert_eq!(decode(&bytes), Some(m));
}

#[test]
fn round_trip_empty_text() {
    let m = Message::new(Payload::Forward(peer("", 0), ForwardPayload::Text(String::new())));
    let bytes = encode(&m);
    assert_eq!(decode(&bytes), Some(m));
}

#[test]
fn join_req_layout_is_fixed() {
    // tag, 8-byte little-endian length, UTF-8 bytes, 4 address octets
    let m = Message::new(Payload::JoinReq(peer("ab", 5)));
    let bytes = encode(&m);
    assert_eq!(
        bytes,
        vec![1u8, 2, 0, 0, 0, 0, 0, 0, 0, b'a', b'b', 192, 168, 1, 5]
    );
}

#[test]
fn decode_empty_frame_fails() {
    assert_eq!(decode(&[]), None);
}

#[test]
fn decode_unknown_tag_fails() {
    assert_eq!(decode(&[9u8, 0, 0, 0]), None);
}

#[test]
fn decode_truncated_frame_fails() {
    let m = Message::new(Payload::JoinReq(peer("alice", 2)));
    let mut bytes = encode(&m);
    bytes.pop();
    assert_eq!(decode(&bytes), None);
}

#[test]
fn decode_trailing_bytes_fail() {
    let m = Message::new(Payload::JoinReq(peer("alice", 2)));
    let mut bytes = encode(&m);
    bytes.push(0);
    assert_eq!(decode(&bytes), None);
}

#[test]
fn decode_invalid_utf8_fails() {
    let m = Message::new(Payload::JoinReq(peer("ab", 5)));
    let mut bytes = encode(&m);
    // first username byte sits after the tag and the 8-byte length
    bytes[9] = 0xFF;
    assert_eq!(decode(&bytes), None);
}

#[test]
fn decode_overlong_length_fails() {
    // a length prefix far past the end of the frame
    let bytes = vec![1u8, 0xFF, 0xFF, 0xFF, 0xFF, 0xFF, 0xFF, 0xFF, 0xFF, b'a'];
    assert_eq!(decode(&bytes), None);
}
