use bytes::BytesMut;
use mqtt5bytes::codec::write_remaining_length;
use mqtt5bytes::{mqtt_read, Error};

/// A CONNECT frame around `body` (shorter than 128 bytes).
fn frame(body: &[u8]) -> BytesMut {
    let mut buf = BytesMut::new();
    buf.extend_from_slice(&[0x10, body.len() as u8]);
    buf.extend_from_slice(body);
    buf
}

/// Protocol name, level and connect flags, then keep alive 0.
fn header(name: &[u8], level: u8, flags: u8) -> Vec<u8> {
    let mut v = vec![0x00, name.len() as u8];
    v.extend_from_slice(name);
    v.extend_from_slice(&[level, flags, 0x00, 0x00]);
    v
}

fn read(bytes: &[u8]) -> Result<mqtt5bytes::Packet, Error> {
    let mut buf = BytesMut::new();
    buf.extend_from_slice(bytes);
    mqtt_read(&mut buf, 1024)
}

#[test]
fn too_short_for_a_fixed_header() {
    assert_eq!(read(&[0x10]), Err(Error::InsufficientBytes(1)));
}

#[test]
fn frame_not_yet_complete_is_left_in_the_stream() {
    let mut buf = BytesMut::new();
    buf.extend_from_slice(&[0x10, 0x05, 0x00]);
    assert_eq!(mqtt_read(&mut buf, 1024), Err(Error::InsufficientBytes(4)));
    assert_eq!(&buf[..], &[0x10, 0x05, 0x00]);
}

#[test]
fn remaining_length_past_four_bytes() {
    assert_eq!(read(&[0x10, 0x80, 0x80, 0x80, 0x80, 0x01]), Err(Error::MalformedRemainingLength));
}

#[test]
fn packet_larger_than_the_limit() {
    let mut buf = BytesMut::new();
    buf.extend_from_slice(&[0x10, 0x05, 0, 0, 0, 0, 0]);
    assert_eq!(mqtt_read(&mut buf, 4), Err(Error::PayloadSizeLimitExceeded(5)));
    assert_eq!(buf.len(), 7);
}

#[test]
fn reserved_packet_types() {
    assert_eq!(read(&[0x00, 0x00]), Err(Error::InvalidPacketType(0)));
    assert_eq!(read(&[0xf0, 0x00]), Err(Error::InvalidPacketType(15)));
}

#[test]
fn other_packet_types_are_unsupported_and_consumed() {
    let mut buf = BytesMut::new();
    buf.extend_from_slice(&[0x20, 0x02, 0x00, 0x00, 0x30]);
    assert_eq!(mqtt_read(&mut buf, 1024), Err(Error::UnsupportedPacketType(2)));
    assert_eq!(&buf[..], &[0x30]);
}

#[test]
fn connect_needs_a_body() {
    assert_eq!(read(&[0x10, 0x00]), Err(Error::PayloadRequired));
}

#[test]
fn wrong_protocol_name() {
    let mut body = header(b"MQTX", 5, 0);
    body.extend_from_slice(&[0x00, 0x00, 0x00]);
    assert_eq!(mqtt_read(&mut frame(&body), 1024), Err(Error::InvalidProtocol));
}

#[test]
fn wrong_protocol_level() {
    let mut body = header(b"MQTT", 4, 0);
    body.extend_from_slice(&[0x00, 0x00, 0x00]);
    assert_eq!(mqtt_read(&mut frame(&body), 1024), Err(Error::InvalidProtocolLevel(4)));
}

#[test]
fn property_not_allowed_in_connect_section() {
    let mut body = header(b"MQTT", 5, 0);
    body.extend_from_slice(&[0x02, 0x01, 0x00, 0x00, 0x00]);
    assert_eq!(mqtt_read(&mut frame(&body), 1024), Err(Error::InvalidPropertyType(1)));
}

#[test]
fn client_id_missing() {
    let mut body = header(b"MQTT", 5, 0);
    body.push(0x00);
    assert_eq!(mqtt_read(&mut frame(&body), 1024), Err(Error::MalformedPacket));
}

#[test]
fn client_id_longer_than_the_frame() {
    let mut body = header(b"MQTT", 5, 0);
    body.extend_from_slice(&[0x00, 0x00, 0x0a, b'a', b'b']);
    assert_eq!(mqtt_read(&mut frame(&body), 1024), Err(Error::BoundaryCrossed(10)));
}

#[test]
fn client_id_not_utf8() {
    let mut body = header(b"MQTT", 5, 0);
    body.extend_from_slice(&[0x00, 0x00, 0x01, 0xff]);
    assert_eq!(mqtt_read(&mut frame(&body), 1024), Err(Error::TopicNotUtf8));
}

#[test]
fn will_options_without_a_will() {
    let mut body = header(b"MQTT", 5, 0x08);
    body.extend_from_slice(&[0x00, 0x00, 0x00]);
    assert_eq!(mqtt_read(&mut frame(&body), 1024), Err(Error::IncorrectPacketFormat));
}

#[test]
fn will_with_qos_three() {
    let mut body = header(b"MQTT", 5, 0x1c);
    // no connect properties, empty client id, no will properties, topic "t",
    // empty message
    body.extend_from_slice(&[0x00, 0x00, 0x00, 0x00, 0x00, 0x01, b't', 0x00, 0x00]);
    assert_eq!(mqtt_read(&mut frame(&body), 1024), Err(Error::InvalidQoS(3)));
}

#[test]
fn remaining_length_too_long_to_write() {
    let mut buf = BytesMut::new();
    assert_eq!(write_remaining_length(&mut buf, 268_435_456), Err(Error::PayloadTooLong));
    assert!(buf.is_empty());
}

fn can_read(bytes: &[u8]) -> bool {
    let mut buf = BytesMut::new();
    buf.extend_from_slice(bytes);
    mqtt5bytes::scan::can_read_packet(&buf, 1024)
}

#[test]
fn can_read_packet_spots_fields_cut_short() {
    // a session expiry interval whose four bytes lie past the property section's
    // end, and past the frame's
    let mut body = header(b"MQTT", 5, 0);
    body.extend_from_slice(&[0x01, 0x11]);
    let mut frame_bytes = vec![0x10, body.len() as u8];
    frame_bytes.extend_from_slice(&body);
    assert!(!can_read(&frame_bytes));
    // the level byte missing
    assert!(!can_read(&[0x10, 0x06, 0x00, 0x04, b'M', b'Q', b'T', b'T']));
}

#[test]
fn can_read_packet_allows_packets_and_refusals() {
    let mut body = header(b"MQTT", 5, 0);
    body.extend_from_slice(&[0x00, 0x00, 0x01, b'c']);
    let mut frame_bytes = vec![0x10, body.len() as u8];
    frame_bytes.extend_from_slice(&body);
    assert!(can_read(&frame_bytes));
    assert!(read(&frame_bytes).is_ok());
    // incomplete frame, other packet type, bad protocol name
    assert!(can_read(&[0x10, 0x05, 0x00]));
    assert!(can_read(&[0x20, 0x00]));
    let mut body = header(b"MQTX", 5, 0);
    body.extend_from_slice(&[0x00, 0x00, 0x00]);
    let mut frame_bytes = vec![0x10, body.len() as u8];
    frame_bytes.extend_from_slice(&body);
    assert!(can_read(&frame_bytes));
    assert_eq!(read(&frame_bytes), Err(Error::InvalidProtocol));
}
