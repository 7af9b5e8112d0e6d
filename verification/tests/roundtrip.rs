use bytes::{Bytes, BytesMut};
use mqtt5bytes::{
    mqtt_read, Connect, ConnectProperties, Error, LastWill, Login, Packet, Protocol, QoS,
    WillProperties,
};

fn small_properties() -> ConnectProperties {
    let mut p = ConnectProperties::_new();
    p.session_expiry_interval = Some(30);
    p
}

fn small_will_properties() -> WillProperties {
    WillProperties {
        delay_interval: None,
        payload_format_indicator: Some(1),
        message_expiry_interval: None,
        content_type: None,
        response_topic: None,
        correlation_data: None,
        user_properties: vec![],
    }
}

fn write(connect: &Connect) -> BytesMut {
    let mut buf = BytesMut::new();
    connect.write(&mut buf).unwrap();
    buf
}

#[test]
fn written_connect_reads_back_and_leaves_the_rest() {
    let connect = Connect {
        protocol: Protocol::MQTT(5),
        keep_alive: 0x1234,
        properties: Some(small_properties()),
        client_id: "sensor-7".to_string(),
        clean_session: false,
        last_will: Some(LastWill {
            topic: "sensors/7/status".to_string(),
            message: Bytes::from(vec![0, 1, 2]),
            qos: QoS::ExactlyOnce,
            retain: true,
            properties: Some(small_will_properties()),
        }),
        login: Some(Login { username: "user".to_string(), password: "pass".to_string() }),
    };
    let mut buf = write(&connect);
    buf.extend_from_slice(&[0xaa, 0xbb]);
    let packet = mqtt_read(&mut buf, 1024).unwrap();
    assert_eq!(packet, Packet::Connect(connect));
    assert_eq!(&buf[..], &[0xaa, 0xbb]);
}

#[test]
fn password_only_login_reads_back() {
    let connect = Connect {
        protocol: Protocol::MQTT(5),
        keep_alive: 60,
        properties: Some(small_properties()),
        client_id: "c".to_string(),
        clean_session: true,
        last_will: None,
        login: Some(Login { username: String::new(), password: "secret".to_string() }),
    };
    let mut buf = write(&connect);
    // clean session and password flags only
    assert_eq!(buf[9], 0x42);
    let packet = mqtt_read(&mut buf, 1024).unwrap();
    assert_eq!(packet, Packet::Connect(connect));
    assert!(buf.is_empty());
}

#[test]
fn connect_with_user_properties_reads_back_in_order() {
    let mut properties = ConnectProperties::_new();
    properties.user_properties = vec![
        ("b".to_string(), "2".to_string()),
        ("a".to_string(), "1".to_string()),
        ("b".to_string(), "3".to_string()),
    ];
    properties.authentication_method = Some("plain".to_string());
    properties.authentication_data = Some(Bytes::from(vec![9, 9]));
    let connect = Connect {
        protocol: Protocol::MQTT(5),
        keep_alive: 5,
        properties: Some(properties),
        client_id: "ü-client".to_string(),
        clean_session: false,
        last_will: None,
        login: None,
    };
    let mut buf = write(&connect);
    let packet = mqtt_read(&mut buf, 1024).unwrap();
    assert_eq!(packet, Packet::Connect(connect));
}

#[test]
fn connect_without_property_section_does_not_read_back() {
    // `Connect::new` has no properties, and no property section is written for
    // them; the reader then takes the client id's length as the section's.
    let connect = Connect::new("id");
    let mut buf = write(&connect);
    assert_eq!(
        &buf[..],
        &[0x10, 0x0e, 0x00, 0x04, b'M', b'Q', b'T', b'T', 0x05, 0x02, 0x00, 0x0a, 0x00, 0x02, b'i', b'd']
    );
    assert_eq!(mqtt_read(&mut buf, 1024), Err(Error::BoundaryCrossed(0x0269)));
}

#[test]
fn connect_new_and_set_login() {
    let mut connect = Connect::new("client");
    assert_eq!(connect.protocol, Protocol::MQTT(4));
    assert_eq!(connect.keep_alive, 10);
    assert!(connect.clean_session);
    assert_eq!(connect.client_id, "client");
    connect.set_login("u", "p").keep_alive = 3;
    assert_eq!(connect.login, Some(Login { username: "u".to_string(), password: "p".to_string() }));
    assert_eq!(connect.keep_alive, 3);
}

#[test]
fn last_will_new_sets_fields() {
    let will = LastWill::new("t/1", vec![1u8, 2], QoS::AtLeastOnce, true);
    assert_eq!(will.topic, "t/1");
    assert_eq!(&will.message[..], &[1, 2]);
    assert_eq!(will.qos, QoS::AtLeastOnce);
    assert!(will.retain);
    assert_eq!(will.properties, None);
}

#[test]
fn connect_len_is_remaining_length() {
    let connect = Connect {
        protocol: Protocol::MQTT(5),
        keep_alive: 1,
        properties: Some(small_properties()),
        client_id: "abc".to_string(),
        clean_session: true,
        last_will: None,
        login: None,
    };
    // header 10, property section 1 + 5, client id 2 + 3
    assert_eq!(connect.len(), 21);
    let buf = write(&connect);
    assert_eq!(buf.len(), 23);
    assert_eq!(buf[1], 21);
}

#[test]
fn will_written_with_its_flags_reads_back() {
    let will = LastWill {
        topic: "a/b".to_string(),
        message: Bytes::from(vec![5, 6]),
        qos: QoS::AtLeastOnce,
        retain: true,
        properties: Some(small_will_properties()),
    };
    let mut buf = BytesMut::new();
    let flags = will.write(&mut buf).unwrap();
    assert_eq!(flags, 0x2c);
    assert_eq!(will.len(), buf.len());
    let mut bytes = buf.freeze();
    assert_eq!(LastWill::extract(flags, &mut bytes), Ok(Some(will)));
    assert!(bytes.is_empty());
}

#[test]
fn connect_properties_written_read_back() {
    let mut properties = ConnectProperties::_new();
    properties.receive_maximum = Some(0x0102);
    properties.topic_alias_max = Some(7);
    properties.user_properties = vec![("k".to_string(), "v".to_string())];
    let mut buf = BytesMut::new();
    properties.write(&mut buf).unwrap();
    assert_eq!(
        &buf[..],
        &[0x0d, 0x21, 0x01, 0x02, 0x22, 0x00, 0x07, 0x26, 0x00, 0x01, b'k', 0x00, 0x01, b'v']
    );
    assert_eq!(properties.len(), 13);
    let mut bytes = buf.freeze();
    assert_eq!(ConnectProperties::extract(&mut bytes), Ok(Some(properties)));
}

#[test]
fn will_properties_written_read_back() {
    let properties = WillProperties {
        delay_interval: Some(0x01020304),
        payload_format_indicator: None,
        message_expiry_interval: None,
        content_type: Some("t".to_string()),
        response_topic: None,
        correlation_data: Some(Bytes::from(vec![1])),
        user_properties: vec![],
    };
    let mut buf = BytesMut::new();
    properties.write(&mut buf).unwrap();
    assert_eq!(
        &buf[..],
        &[0x0d, 0x18, 0x01, 0x02, 0x03, 0x04, 0x03, 0x00, 0x01, b't', 0x09, 0x00, 0x01, 0x01]
    );
    let mut bytes = buf.freeze();
    assert_eq!(WillProperties::extract(&mut bytes), Ok(Some(properties)));
}

#[test]
fn empty_property_section_reads_as_none() {
    let mut bytes = Bytes::from(vec![0x00, 0x42]);
    assert_eq!(ConnectProperties::extract(&mut bytes), Ok(None));
    assert_eq!(&bytes[..], &[0x42]);
    let mut bytes = Bytes::from(vec![0x00]);
    assert_eq!(WillProperties::extract(&mut bytes), Ok(None));
}
