use bytes::{Bytes, BytesMut};
use mqtt5bytes::codec::{
    length, property, property_id, qos, qos_value, read_mqtt_bytes, read_mqtt_string, read_u16,
    remaining_len_len, write_mqtt_bytes, write_mqtt_string, write_remaining_length, PropertyType,
};
use mqtt5bytes::packet::{check, parse_fixed_header};
use mqtt5bytes::{Error, FixedHeader, Login, QoS};

fn encoded(len: usize) -> Vec<u8> {
    let mut buf = BytesMut::new();
    let n = write_remaining_length(&mut buf, len).unwrap();
    assert_eq!(n, buf.len());
    assert_eq!(remaining_len_len(len), n);
    buf.to_vec()
}

#[test]
fn remaining_length_encodings() {
    assert_eq!(encoded(0), vec![0x00]);
    assert_eq!(encoded(127), vec![0x7f]);
    assert_eq!(encoded(128), vec![0x80, 0x01]);
    assert_eq!(encoded(321), vec![0xc1, 0x02]);
    assert_eq!(encoded(16_383), vec![0xff, 0x7f]);
    assert_eq!(encoded(16_384), vec![0x80, 0x80, 0x01]);
    assert_eq!(encoded(2_097_151), vec![0xff, 0xff, 0x7f]);
    assert_eq!(encoded(2_097_152), vec![0x80, 0x80, 0x80, 0x01]);
    assert_eq!(encoded(268_435_455), vec![0xff, 0xff, 0xff, 0x7f]);
}

#[test]
fn remaining_length_reads_back() {
    for len in [0usize, 1, 127, 128, 321, 16_383, 16_384, 2_097_152, 268_435_455] {
        let mut bytes = encoded(len);
        let n = bytes.len();
        bytes.push(0x42);
        assert_eq!(length(&bytes), Ok((n, len)));
    }
}

#[test]
fn remaining_length_errors() {
    assert_eq!(length(&[]), Err(Error::InsufficientBytes(1)));
    assert_eq!(length(&[0x80]), Err(Error::InsufficientBytes(1)));
    assert_eq!(length(&[0xff, 0xff, 0xff, 0xff]), Err(Error::MalformedRemainingLength));
}

#[test]
fn fixed_header_and_check() {
    assert_eq!(
        parse_fixed_header(&[0x10, 0xc1, 0x02]),
        Ok(FixedHeader { byte1: 0x10, fixed_len: 3, remaining_len: 321 })
    );
    assert_eq!(parse_fixed_header(&[0x10]), Err(Error::InsufficientBytes(1)));
    assert_eq!(
        check(&[0x30, 0x02, 0x00, 0x00], 10),
        Ok(FixedHeader { byte1: 0x30, fixed_len: 2, remaining_len: 2 })
    );
    assert_eq!(check(&[0x30, 0x02, 0x00], 10), Err(Error::InsufficientBytes(1)));
    assert_eq!(check(&[0x30, 0x02, 0x00, 0x00], 1), Err(Error::PayloadSizeLimitExceeded(2)));
    let h = FixedHeader::new(0x10, 2, 300);
    assert_eq!(h.frame_length(), 303);
}

#[test]
fn qos_numbers() {
    assert_eq!(qos(0), Ok(QoS::AtMostOnce));
    assert_eq!(qos(1), Ok(QoS::AtLeastOnce));
    assert_eq!(qos(2), Ok(QoS::ExactlyOnce));
    assert_eq!(qos(3), Err(Error::InvalidQoS(3)));
    for q in [QoS::AtMostOnce, QoS::AtLeastOnce, QoS::ExactlyOnce] {
        assert_eq!(qos(qos_value(q)), Ok(q));
    }
}

#[test]
fn property_identifiers() {
    assert_eq!(property(17), Ok(PropertyType::SessionExpiryInterval));
    assert_eq!(property(38), Ok(PropertyType::UserProperty));
    assert_eq!(property(42), Ok(PropertyType::SharedSubscriptionAvailable));
    assert_eq!(property(0), Err(Error::InvalidPropertyType(0)));
    assert_eq!(property(4), Err(Error::InvalidPropertyType(4)));
    assert_eq!(property(43), Err(Error::InvalidPropertyType(43)));
    for id in 0..=255u8 {
        if let Ok(p) = property(id) {
            assert_eq!(property_id(p), id);
        }
    }
}

#[test]
fn u16_is_big_endian() {
    let mut b = Bytes::from(vec![0x12, 0x34, 0x56]);
    assert_eq!(read_u16(&mut b), Ok(0x1234));
    assert_eq!(&b[..], &[0x56]);
    assert_eq!(read_u16(&mut b), Err(Error::MalformedPacket));
}

#[test]
fn length_prefixed_bytes_and_strings() {
    let mut buf = BytesMut::new();
    write_mqtt_bytes(&mut buf, &[7, 8, 9]);
    write_mqtt_string(&mut buf, "hé");
    assert_eq!(&buf[..], &[0x00, 0x03, 7, 8, 9, 0x00, 0x03, b'h', 0xc3, 0xa9]);
    let mut b = buf.freeze();
    assert_eq!(&read_mqtt_bytes(&mut b).unwrap()[..], &[7, 8, 9]);
    assert_eq!(read_mqtt_string(&mut b), Ok("hé".to_string()));
    assert!(b.is_empty());
}

#[test]
fn login_flags_and_bytes() {
    let both = Login { username: "ab".to_string(), password: "c".to_string() };
    let mut buf = BytesMut::new();
    assert_eq!(both.write(&mut buf), 0xc0);
    assert_eq!(&buf[..], &[0x00, 0x02, b'a', b'b', 0x00, 0x01, b'c']);
    assert_eq!(both.len(), 7);

    let user_only = Login { username: "ab".to_string(), password: String::new() };
    let mut buf = BytesMut::new();
    assert_eq!(user_only.write(&mut buf), 0x80);
    assert_eq!(user_only.len(), 4);

    let none = Login { username: String::new(), password: String::new() };
    let mut buf = BytesMut::new();
    assert_eq!(none.write(&mut buf), 0x00);
    assert!(buf.is_empty());
    assert_eq!(none.len(), 0);
}

#[test]
fn login_extract_follows_flags() {
    let mut b = Bytes::from(vec![0x00, 0x02, b'a', b'b', 0x00, 0x01, b'c', 0x99]);
    assert_eq!(
        Login::extract(0xc0, &mut b),
        Ok(Some(Login { username: "ab".to_string(), password: "c".to_string() }))
    );
    assert_eq!(&b[..], &[0x99]);
    let mut b = Bytes::from(vec![0x99]);
    assert_eq!(Login::extract(0x00, &mut b), Ok(None));
    assert_eq!(&b[..], &[0x99]);
}

#[test]
fn remaining_len_len_caps_at_four() {
    assert_eq!(remaining_len_len(268_435_456), 4);
    assert_eq!(remaining_len_len(usize::MAX), 4);
}

#[test]
fn will_options_without_will_leave_the_buffer() {
    let mut b = Bytes::from(vec![0x00, 0x01, b't']);
    assert_eq!(mqtt5bytes::LastWill::extract(0x20, &mut b), Err(Error::IncorrectPacketFormat));
    assert_eq!(&b[..], &[0x00, 0x01, b't']);
    assert_eq!(mqtt5bytes::LastWill::extract(0x00, &mut b), Ok(None));
    assert_eq!(&b[..], &[0x00, 0x01, b't']);
}
