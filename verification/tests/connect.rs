use bytes::{Bytes, BytesMut};
use mqtt5bytes::{mqtt_read, Connect, ConnectProperties, LastWill, Login, Packet, Protocol, QoS, WillProperties};

fn sample() -> Connect {
    let connect_properties = ConnectProperties {
        session_expiry_interval: Some(1234),
        receive_maximum: Some(432),
        max_packet_size: Some(100),
        topic_alias_max: Some(456),
        request_response_info: Some(1),
        request_problem_info: Some(1),
        user_properties: vec![("test".to_owned(), "test".to_owned())],
        authentication_method: Some("test".to_owned()),
        authentication_data: Some(Bytes::from(vec![1, 2, 3, 4])),
    };

    let will_properties = WillProperties {
        delay_interval: Some(1234),
        payload_format_indicator: Some(0),
        message_expiry_interval: Some(4321),
        content_type: Some("test".to_owned()),
        response_topic: Some("topic".to_owned()),
        correlation_data: Some(Bytes::from(vec![1, 2, 3, 4])),
        user_properties: vec![("test".to_owned(), "test".to_owned())],
    };

    let will = LastWill {
        topic: "mydevice/status".to_string(),
        message: Bytes::from(vec![b'd', b'e', b'a', b'd']),
        qos: QoS::AtMostOnce,
        retain: false,
        properties: Some(will_properties),
    };

    let login = Login {
        username: "matteo".to_string(),
        password: "collina".to_string(),
    };

    Connect {
        protocol: Protocol::MQTT(5),
        keep_alive: 0,
        properties: Some(connect_properties),
        client_id: "my-device".to_string(),
        clean_session: true,
        last_will: Some(will),
        login: Some(login),
    }
}

fn sample_bytes() -> Vec<u8> {
    vec![
        0x10, // packet type
        0x9d, // remaining len
        0x01, // remaining len
        00, 04,   // 4
        0x4d, // M
        0x51, // Q
        0x54, // T
        0x54, // T
        0x05, // Level
        0xc6, // connect flags
        0x00, 0x00, // keep alive
        0x2f, // properties len
        0x11, 0x00, 0x00, 0x04, 0xd2, // session expiry interval
        0x21, 0x01, 0xb0, // receive_maximum
        0x27, 0x00, 0x00, 0x00, 0x64, // max packet size
        0x22, 0x01, 0xc8, // topic_alias_max
        0x19, 0x01, // request_response_info
        0x17, 0x01, // request_problem_info
        0x26, 0x00, 0x04, 0x74, 0x65, 0x73, 0x74, 0x00, 0x04, 0x74, 0x65, 0x73,
        0x74, // user
        0x15, 0x00, 0x04, 0x74, 0x65, 0x73, 0x74, // authentication_method
        0x16, 0x00, 0x04, 0x01, 0x02, 0x03, 0x04, // authentication_data
        0x00, 0x09, 0x6d, 0x79, 0x2d, 0x64, 0x65, 0x76, 0x69, 0x63, 0x65, // client id
        0x2f, // will properties len
        0x18, 0x00, 0x00, 0x04, 0xd2, // will delay interval
        0x01, 0x00, // payload format indicator
        0x02, 0x00, 0x00, 0x10, 0xe1, // message expiry interval
        0x03, 0x00, 0x04, 0x74, 0x65, 0x73, 0x74, // content type
        0x08, 0x00, 0x05, 0x74, 0x6f, 0x70, 0x69, 0x63, // response topic
        0x09, 0x00, 0x04, 0x01, 0x02, 0x03, 0x04, // correlation_data
        0x26, 0x00, 0x04, 0x74, 0x65, 0x73, 0x74, 0x00, 0x04, 0x74, 0x65, 0x73,
        0x74, // will user properties
        0x00, 0x0f, 0x6d, 0x79, 0x64, 0x65, 0x76, 0x69, 0x63, 0x65, 0x2f, 0x73, 0x74, 0x61,
        0x74, 0x75, 0x73, // will topic
        0x00, 0x04, 0x64, 0x65, 0x61, 0x64, // will payload
        0x00, 0x06, 0x6d, 0x61, 0x74, 0x74, 0x65, 0x6f, // username
        0x00, 0x07, 0x63, 0x6f, 0x6c, 0x6c, 0x69, 0x6e, 0x61, // password
    ]
}

#[test]
#[allow(unreachable_patterns)]
fn connect_parsing_works_correctlyl() {
    let mut stream = bytes::BytesMut::new();
    let packetstream = &sample_bytes();
    stream.extend_from_slice(&packetstream[..]);
    let packet = mqtt_read(&mut stream, 200).unwrap();
    let packet = match packet {
        Packet::Connect(connect) => connect,
        packet => panic!("Invalid packet = {:?}", packet),
    };

    let connect = sample();
    assert_eq!(packet, connect);
}

#[test]
fn connect_encoding_works_correctly() {
    let connect = sample();
    let mut buf = BytesMut::new();
    connect.write(&mut buf).unwrap();
    assert_eq!(&buf[..], sample_bytes());
}

#[test]
fn missing_properties_are_encoded_correctly() {}

#[test]
fn sample_packet_can_be_read() {
    let mut stream = BytesMut::new();
    stream.extend_from_slice(&sample_bytes());
    assert!(mqtt5bytes::scan::can_read_packet(&stream, 200));
}
