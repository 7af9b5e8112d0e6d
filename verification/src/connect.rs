//! The CONNECT packet: the first packet a client sends, with its protocol, keep
//! alive, properties, client id, optional will and optional login.
use crate::buf::{
    be_u16, bytes_advance, bytes_contents, bytes_from_vec, bytes_get_u16, bytes_get_u8,
    bytes_len, bytes_mut_contents, bytes_mut_put_u16, bytes_mut_put_u8, bytes_mut_reserve,
    bytes_mut_set, u16_bytes,
};
use crate::codec::{
    mqtt_bytes_encoding, mqtt_string_encoding, parse_mqtt_bytes, parse_mqtt_string, qos,
    qos_number, qos_value, read_mqtt_bytes, read_mqtt_string, remaining_len_len,
    remaining_length_bytes, write_mqtt_bytes, write_mqtt_string, write_remaining_length, Error,
    Protocol, QoS, Step, MAX_REMAINING_LENGTH, lemma_remaining_length_size, remaining_length_size,
};
use crate::connect_properties::{
    connect_properties_bytes, opt_connect_properties_view, parse_connect_properties,
    ConnectProperties, ConnectPropertiesView,
};
use crate::will_properties::{
    opt_will_properties_view, parse_will_properties, will_properties_bytes, WillProperties,
    WillPropertiesView,
};
use crate::buf::bytes_as_slice;
use crate::packet::FixedHeader;
use bytes::{Bytes, BytesMut};
use vstd::prelude::*;
use vstd::std_specs::convert::IntoSpec;
use vstd::utf8::{encode_utf8, is_ascii_chars, is_ascii_chars_encode_utf8};

verus! {

/// The protocol name of MQTT.
pub open spec fn mqtt_name() -> Seq<char> {
    seq!['M', 'Q', 'T', 'T']
}

/// The UTF-8 bytes of the protocol name.
pub proof fn lemma_mqtt_name_bytes()
    ensures
        encode_utf8(mqtt_name()) == seq![0x4du8, 0x51u8, 0x54u8, 0x54u8],
{
    assert(is_ascii_chars(mqtt_name()));
    is_ascii_chars_encode_utf8(mqtt_name());
    assert(encode_utf8(mqtt_name()) =~= seq![0x4du8, 0x51u8, 0x54u8, 0x54u8]);
}

/// Whether `name` is the protocol name of MQTT.
fn is_mqtt_name(name: &String) -> (b: bool)
    ensures
        b == (name@ == mqtt_name()),
{
    let bytes = name.as_str().as_bytes();
    proof {
        lemma_mqtt_name_bytes();
        vstd::utf8::encode_utf8_decode_utf8(name@);
        vstd::utf8::encode_utf8_decode_utf8(mqtt_name());
    }
    let b = bytes.len() == 4 && bytes[0] == 0x4d && bytes[1] == 0x51 && bytes[2] == 0x54
        && bytes[3] == 0x54;
    proof {
        if b {
            assert(bytes@ =~= seq![0x4du8, 0x51u8, 0x54u8, 0x54u8]);
        }
    }
    b
}

/// Login credentials, as values.
pub struct LoginView {
    pub username: Seq<char>,
    pub password: Seq<char>,
}

/// Login credentials.
#[derive(Debug, Clone, PartialEq)]
pub struct Login {
    pub username: String,
    pub password: String,
}

impl View for Login {
    type V = LoginView;

    open spec fn view(&self) -> LoginView {
        LoginView { username: self.username@, password: self.password@ }
    }
}

/// The values of optional login credentials.
pub open spec fn opt_login_view(l: Option<Login>) -> Option<LoginView> {
    match l {
        Some(x) => Some(x@),
        None => None,
    }
}

/// Reads a string off the front of `s` if `present`; an absent one is empty.
pub open spec fn parse_optional_string(present: bool, s: Seq<u8>) -> Step<Seq<char>> {
    if present {
        parse_mqtt_string(s)
    } else {
        Step::Done(seq![], s)
    }
}

/// Reads the login credentials off the front of `s`: a username if the flags have
/// bit 7, then a password if they have bit 6. No credentials if both are empty.
pub open spec fn parse_login(flags: u8, s: Seq<u8>) -> Step<Option<LoginView>> {
    match parse_optional_string(flags & 0x80 != 0, s) {
        Step::Done(username, s1) => match parse_optional_string(flags & 0x40 != 0, s1) {
            Step::Done(password, s2) => if username.len() == 0 && password.len() == 0 {
                Step::Done(None, s2)
            } else {
                Step::Done(Some(LoginView { username, password }), s2)
            },
            Step::Fail(e) => Step::Fail(e),
            Step::Exhausted => Step::Exhausted,
        },
        Step::Fail(e) => Step::Fail(e),
        Step::Exhausted => Step::Exhausted,
    }
}

/// The bytes of the login credentials: each non-empty one with its length prefix.
pub open spec fn login_bytes(l: LoginView) -> Seq<u8> {
    (if l.username.len() > 0 {
        mqtt_string_encoding(l.username)
    } else {
        seq![]
    }) + (if l.password.len() > 0 {
        mqtt_string_encoding(l.password)
    } else {
        seq![]
    })
}

/// The connect flags that announce the login credentials.
pub open spec fn login_flags(l: LoginView) -> u8 {
    (if l.username.len() > 0 {
        0x80u8
    } else {
        0u8
    }) | (if l.password.len() > 0 {
        0x40u8
    } else {
        0u8
    })
}

impl Login {
    /// Reads the login credentials that the connect flags announce.
    pub fn extract(connect_flags: u8, bytes: &mut Bytes) -> (r: Result<Option<Login>, Error>)
        ensures
            match parse_login(connect_flags, bytes_contents(*old(bytes))) {
                Step::Done(v, rest) => r matches Ok(o) && opt_login_view(o) == v
                    && bytes_contents(*final(bytes)) == rest,
                Step::Fail(e) => r == Err::<Option<Login>, Error>(e),
                Step::Exhausted => false,
            },
    {
        let username = match connect_flags & 0b1000_0000 {
            0 => String::new(),
            _ => read_mqtt_string(bytes)?,
        };

        let password = match connect_flags & 0b0100_0000 {
            0 => String::new(),
            _ => read_mqtt_string(bytes)?,
        };

        if username.as_str().is_empty() && password.as_str().is_empty() {
            Ok(None)
        } else {
            Ok(Some(Login { username, password }))
        }
    }

    /// How many bytes the credentials take on the wire.
    pub fn len(&self) -> (n: usize)
        requires
            login_bytes(self@).len() <= usize::MAX,
        ensures
            n == login_bytes(self@).len(),
    {
        let mut len: usize = 0;

        if !self.username.as_str().is_empty() {
            len = len + 2 + self.username.as_str().len();
        }

        if !self.password.as_str().is_empty() {
            len = len + 2 + self.password.as_str().len();
        }

        len
    }

    /// Appends the non-empty credentials and returns the connect flags that
    /// announce them.
    pub fn write(&self, buffer: &mut BytesMut) -> (flags: u8)
        requires
            bytes_mut_contents(*old(buffer)).len() + login_bytes(self@).len() <= isize::MAX,
        ensures
            flags == login_flags(self@),
            bytes_mut_contents(*final(buffer)) == bytes_mut_contents(*old(buffer)) + login_bytes(
                self@,
            ),
    {
        let ghost start = bytes_mut_contents(*buffer);
        let mut connect_flags: u8 = 0;
        if !self.username.as_str().is_empty() {
            connect_flags = connect_flags | 0x80;
            write_mqtt_string(buffer, self.username.as_str());
        }

        if !self.password.as_str().is_empty() {
            connect_flags = connect_flags | 0x40;
            write_mqtt_string(buffer, self.password.as_str());
        }
        assert(connect_flags == login_flags(self@)) by {
            assert(0u8 | 0x80u8 == 0x80u8) by (bit_vector);
            assert(0u8 | 0x40u8 == 0x40u8) by (bit_vector);
            assert(0u8 | 0u8 == 0u8) by (bit_vector);
            assert(0x80u8 | 0u8 == 0x80u8) by (bit_vector);
        }
        assert(bytes_mut_contents(*buffer) =~= start + login_bytes(self@));
        connect_flags
    }
}

/// A will message, as values.
pub struct LastWillView {
    pub topic: Seq<char>,
    pub message: Seq<u8>,
    pub qos: QoS,
    pub retain: bool,
    pub properties: Option<WillPropertiesView>,
}

/// LastWill that broker forwards on behalf of the client
#[derive(Debug, Clone, PartialEq)]
pub struct LastWill {
    pub topic: String,
    pub message: Bytes,
    pub qos: QoS,
    pub retain: bool,
    pub properties: Option<WillProperties>,
}

impl View for LastWill {
    type V = LastWillView;

    open spec fn view(&self) -> LastWillView {
        LastWillView {
            topic: self.topic@,
            message: bytes_contents(self.message),
            qos: self.qos,
            retain: self.retain,
            properties: opt_will_properties_view(self.properties),
        }
    }
}

/// The values of an optional will.
pub open spec fn opt_last_will_view(w: Option<LastWill>) -> Option<LastWillView> {
    match w {
        Some(x) => Some(x@),
        None => None,
    }
}

/// The QoS with wire number `n` (at most 2).
pub open spec fn qos_from_number(n: u8) -> QoS {
    if n == 0 {
        QoS::AtMostOnce
    } else if n == 1 {
        QoS::AtLeastOnce
    } else {
        QoS::ExactlyOnce
    }
}

/// Reads the will that the connect flags announce (bit 2) off the front of `s`:
/// its properties, topic and message; its QoS comes from bits 3 and 4 and its
/// retain flag from bit 5. Without bit 2, bits 3 to 5 must be clear.
pub open spec fn parse_last_will(flags: u8, s: Seq<u8>) -> Step<Option<LastWillView>> {
    if flags & 0b100 == 0 {
        if flags & 0b0011_1000 != 0 {
            Step::Fail(Error::IncorrectPacketFormat)
        } else {
            Step::Done(None, s)
        }
    } else {
        match parse_will_properties(s) {
            Step::Done(properties, s1) => match parse_mqtt_string(s1) {
                Step::Done(topic, s2) => match parse_mqtt_bytes(s2) {
                    Step::Done(message, s3) => {
                        let q = (flags & 0b11000) >> 3u8;
                        if q > 2 {
                            Step::Fail(Error::InvalidQoS(q))
                        } else {
                            Step::Done(
                                Some(
                                    LastWillView {
                                        topic,
                                        message,
                                        qos: qos_from_number(q),
                                        retain: flags & 0b0010_0000 != 0,
                                        properties,
                                    },
                                ),
                                s3,
                            )
                        }
                    },
                    Step::Fail(e) => Step::Fail(e),
                    Step::Exhausted => Step::Exhausted,
                },
                Step::Fail(e) => Step::Fail(e),
                Step::Exhausted => Step::Exhausted,
            },
            Step::Fail(e) => Step::Fail(e),
            Step::Exhausted => Step::Exhausted,
        }
    }
}

/// The bytes of an optional will property section, with its length in front.
pub open spec fn will_properties_section(p: Option<WillPropertiesView>) -> Seq<u8> {
    match p {
        Some(x) => remaining_length_bytes(will_properties_bytes(x).len()) + will_properties_bytes(
            x,
        ),
        None => seq![],
    }
}

/// The bytes of a will: its property section (if any), topic and message.
pub open spec fn last_will_bytes(w: LastWillView) -> Seq<u8> {
    will_properties_section(w.properties) + mqtt_string_encoding(w.topic) + mqtt_bytes_encoding(
        w.message,
    )
}

/// The connect flags that announce a will: bit 2, the QoS in bits 3 and 4, and
/// the retain flag in bit 5.
pub open spec fn last_will_flags(w: LastWillView) -> u8 {
    let f = 0u8 | (0x04u8 | (qos_number(w.qos) << 3u8));
    if w.retain {
        f | 0x20u8
    } else {
        f
    }
}

/// How many bytes a property section of `n` bytes takes with its length in
/// front, that length counted at 1 to 4 bytes (4 where it is too long to encode).
pub open spec fn section_size(n: nat) -> nat {
    remaining_length_size(n) + n
}

/// How many bytes a will takes on the wire: its property section (if any), topic
/// and message, each with its length in front.
pub open spec fn last_will_len(w: LastWillView) -> nat {
    (match w.properties {
        Some(p) => section_size(will_properties_bytes(p).len()),
        None => 0,
    }) + 2 + encode_utf8(w.topic).len() + 2 + w.message.len()
}

/// Whether the size of a will fits in a `usize`.
pub open spec fn last_will_size_ok(w: LastWillView) -> bool {
    last_will_len(w) <= usize::MAX
}

/// Whether the property section of a will, if any, fits in a remaining length.
pub open spec fn last_will_section_fits(w: LastWillView) -> bool {
    w.properties matches Some(p) ==> will_properties_bytes(p).len() <= MAX_REMAINING_LENGTH
}

/// Where the property section of a will fits in a remaining length, its size is
/// that of the bytes written for it.
pub proof fn lemma_last_will_len(w: LastWillView)
    requires
        last_will_section_fits(w),
    ensures
        last_will_bytes(w).len() == last_will_len(w),
{
    if let Some(p) = w.properties {
        lemma_remaining_length_size(will_properties_bytes(p).len());
    }
}

impl LastWill {
    /// Reads the will that the connect flags announce.
    pub fn extract(connect_flags: u8, bytes: &mut Bytes) -> (r: Result<Option<LastWill>, Error>)
        requires
            !(parse_last_will(connect_flags, bytes_contents(*old(bytes))) is Exhausted),
        ensures
            match parse_last_will(connect_flags, bytes_contents(*old(bytes))) {
                Step::Done(v, rest) => r matches Ok(o) && opt_last_will_view(o) == v
                    && bytes_contents(*final(bytes)) == rest,
                Step::Fail(e) => r == Err::<Option<LastWill>, Error>(e),
                Step::Exhausted => false,
            },
            connect_flags & 0b100 == 0 ==> bytes_contents(*final(bytes)) == bytes_contents(
                *old(bytes),
            ),
    {
        let last_will = match connect_flags & 0b100 {
            0 if (connect_flags & 0b0011_1000) != 0 => {
                return Err(Error::IncorrectPacketFormat);
            },
            0 => None,
            _ => {
                let properties = WillProperties::extract(bytes)?;
                let will_topic = read_mqtt_string(bytes)?;
                let will_message = read_mqtt_bytes(bytes)?;
                let will_qos = qos((connect_flags & 0b11000) >> 3)?;
                assert((connect_flags & 0b11000) >> 3u8 <= 3) by (bit_vector);
                Some(
                    LastWill {
                        topic: will_topic,
                        message: will_message,
                        qos: will_qos,
                        retain: (connect_flags & 0b0010_0000) != 0,
                        properties,
                    },
                )
            },
        };

        Ok(last_will)
    }

    /// How many bytes the will takes on the wire.
    pub fn len(&self) -> (n: usize)
        requires
            last_will_size_ok(self@),
        ensures
            n == last_will_len(self@),
    {
        let mut len: usize = 0;
        if let Some(properties) = &self.properties {
            let properties_len = properties.len();
            let properties_len_len = remaining_len_len(properties_len);
            len = len + properties_len_len + properties_len;
        }
        len = len + 2 + self.topic.as_str().len() + 2 + bytes_len(&self.message);
        len
    }

    /// Appends the will and returns the connect flags that announce it. A property
    /// section longer than a remaining length can say is refused.
    pub fn write(&self, buffer: &mut BytesMut) -> (r: Result<u8, Error>)
        requires
            self@.properties matches Some(p) ==> will_properties_bytes(p).len() <= usize::MAX,
            bytes_mut_contents(*old(buffer)).len() + last_will_bytes(self@).len() <= isize::MAX,
        ensures
            match self@.properties {
                Some(p) if will_properties_bytes(p).len() > MAX_REMAINING_LENGTH => r == Err::<
                    u8,
                    Error,
                >(Error::PayloadTooLong) && bytes_mut_contents(*final(buffer))
                    == bytes_mut_contents(*old(buffer)),
                _ => r == Ok::<u8, Error>(last_will_flags(self@)) && bytes_mut_contents(
                    *final(buffer),
                ) == bytes_mut_contents(*old(buffer)) + last_will_bytes(self@),
            },
    {
        let ghost start = bytes_mut_contents(*buffer);
        let mut connect_flags: u8 = 0;

        connect_flags = connect_flags | (0x04 | qos_value(self.qos) << 3);
        if self.retain {
            connect_flags = connect_flags | 0x20;
        }

        if let Some(properties) = &self.properties {
            properties.write(buffer)?;
        }
        assert(bytes_mut_contents(*buffer) =~= start + will_properties_section(self@.properties));

        write_mqtt_string(buffer, self.topic.as_str());
        write_mqtt_bytes(buffer, bytes_as_slice(&self.message));
        assert(bytes_mut_contents(*buffer) =~= start + last_will_bytes(self@));
        Ok(connect_flags)
    }

    /// A will with no properties, from anything that converts into its topic and
    /// its message bytes.
    pub fn new<T: Into<String>, P: Into<Vec<u8>>>(
        topic: T,
        payload: P,
        qos: QoS,
        retain: bool,
    ) -> (w: LastWill)
        ensures
            w.qos == qos,
            w.retain == retain,
            w.properties is None,
            <T as IntoSpec<String>>::obeys_into_spec() ==> w.topic == topic.into_spec(),
            <P as IntoSpec<Vec<u8>>>::obeys_into_spec() ==> bytes_contents(w.message)
                == payload.into_spec()@,
    {
        LastWill {
            topic: topic.into(),
            message: bytes_from_vec(payload.into()),
            qos,
            retain,
            properties: None,
        }
    }
}

/// A CONNECT packet, as values.
pub struct ConnectView {
    pub protocol: Protocol,
    pub keep_alive: u16,
    pub properties: Option<ConnectPropertiesView>,
    pub client_id: Seq<char>,
    pub clean_session: bool,
    pub last_will: Option<LastWillView>,
    pub login: Option<LoginView>,
}

/// Connection packet initiated by the client
#[derive(Debug, Clone, PartialEq)]
pub struct Connect {
    /// Mqtt protocol version
    pub protocol: Protocol,
    /// Mqtt keep alive time
    pub keep_alive: u16,
    /// Properties
    pub properties: Option<ConnectProperties>,
    /// Client Id
    pub client_id: String,
    /// Clean session. Asks the broker to clear previous state
    pub clean_session: bool,
    /// Will that broker needs to publish when the client disconnects
    pub last_will: Option<LastWill>,
    /// Login credentials
    pub login: Option<Login>,
}

impl View for Connect {
    type V = ConnectView;

    open spec fn view(&self) -> ConnectView {
        ConnectView {
            protocol: self.protocol,
            keep_alive: self.keep_alive,
            properties: opt_connect_properties_view(self.properties),
            client_id: self.client_id@,
            clean_session: self.clean_session,
            last_will: opt_last_will_view(self.last_will),
            login: opt_login_view(self.login),
        }
    }
}

/// Reads the variable header and payload of a CONNECT packet off the front of `s`:
/// the protocol name and level, the connect flags, the keep alive, the connection
/// properties, the client id, then the will and the login that the flags announce.
/// The name must be `MQTT` and the level 5; the level byte is read before the name
/// is checked.
pub open spec fn parse_connect(s: Seq<u8>) -> Step<ConnectView> {
    match parse_mqtt_string(s) {
        Step::Done(name, s1) => if s1.len() < 1 {
            Step::Exhausted
        } else if name != mqtt_name() {
            Step::Fail(Error::InvalidProtocol)
        } else if s1[0] != 5 {
            Step::Fail(Error::InvalidProtocolLevel(s1[0]))
        } else if s1.len() < 2 {
            Step::Exhausted
        } else {
            parse_connect_after_level(s1[1], s1.skip(2))
        },
        Step::Fail(e) => Step::Fail(e),
        Step::Exhausted => Step::Exhausted,
    }
}

/// Reads what follows the connect flags `flags` of a CONNECT packet off the front
/// of `s`.
pub open spec fn parse_connect_after_level(flags: u8, s: Seq<u8>) -> Step<ConnectView> {
    if s.len() < 2 {
        Step::Exhausted
    } else {
        match parse_connect_properties(s.skip(2)) {
            Step::Done(properties, s3) => match parse_mqtt_string(s3) {
                Step::Done(client_id, s4) => match parse_last_will(flags, s4) {
                    Step::Done(last_will, s5) => match parse_login(flags, s5) {
                        Step::Done(login, s6) => Step::Done(
                            ConnectView {
                                protocol: Protocol::MQTT(5),
                                keep_alive: be_u16(s),
                                properties,
                                client_id,
                                clean_session: flags & 0b10 != 0,
                                last_will,
                                login,
                            },
                            s6,
                        ),
                        Step::Fail(e) => Step::Fail(e),
                        Step::Exhausted => Step::Exhausted,
                    },
                    Step::Fail(e) => Step::Fail(e),
                    Step::Exhausted => Step::Exhausted,
                },
                Step::Fail(e) => Step::Fail(e),
                Step::Exhausted => Step::Exhausted,
            },
            Step::Fail(e) => Step::Fail(e),
            Step::Exhausted => Step::Exhausted,
        }
    }
}

/// Reads a CONNECT packet from a frame whose fixed header takes `fixed_len` bytes.
pub open spec fn parse_connect_frame(fixed_len: nat, frame: Seq<u8>) -> Step<ConnectView> {
    if fixed_len > frame.len() {
        Step::Exhausted
    } else {
        parse_connect(frame.skip(fixed_len as int))
    }
}

/// The bytes of an optional connection property section, with its length in front.
pub open spec fn connect_properties_section(p: Option<ConnectPropertiesView>) -> Seq<u8> {
    match p {
        Some(x) => remaining_length_bytes(connect_properties_bytes(x).len())
            + connect_properties_bytes(x),
        None => seq![],
    }
}

/// The bytes of an optional will.
pub open spec fn opt_last_will_bytes(w: Option<LastWillView>) -> Seq<u8> {
    match w {
        Some(x) => last_will_bytes(x),
        None => seq![],
    }
}

/// The bytes of optional login credentials.
pub open spec fn opt_login_bytes(l: Option<LoginView>) -> Seq<u8> {
    match l {
        Some(x) => login_bytes(x),
        None => seq![],
    }
}

/// The variable header of a CONNECT packet with connect flags byte `flags`:
/// protocol name `MQTT`, level 5, the flags and the keep alive.
pub open spec fn connect_header_bytes(c: ConnectView, flags: u8) -> Seq<u8> {
    mqtt_string_encoding(mqtt_name()) + seq![5u8, flags] + u16_bytes(c.keep_alive)
}

/// What follows the variable header's fixed part: the connection property section
/// (if any), the client id, the will (if any) and the login (if any).
pub open spec fn connect_payload_bytes(c: ConnectView) -> Seq<u8> {
    connect_properties_section(c.properties) + mqtt_string_encoding(c.client_id)
        + opt_last_will_bytes(c.last_will) + opt_login_bytes(c.login)
}

/// The variable header and payload of a CONNECT packet with connect flags byte
/// `flags`.
pub open spec fn connect_body(c: ConnectView, flags: u8) -> Seq<u8> {
    connect_header_bytes(c, flags) + connect_payload_bytes(c)
}

/// How many bytes an optional will takes on the wire.
pub open spec fn opt_last_will_len(w: Option<LastWillView>) -> nat {
    match w {
        Some(x) => last_will_len(x),
        None => 0,
    }
}

/// The remaining length of a CONNECT packet: the ten bytes of protocol name,
/// level, flags and keep alive, the connection property section (if any), the
/// client id, the will (if any) and the login (if any).
pub open spec fn connect_len(c: ConnectView) -> nat {
    10 + (match c.properties {
        Some(p) => section_size(connect_properties_bytes(p).len()),
        None => 0,
    }) + 2 + encode_utf8(c.client_id).len() + opt_last_will_len(c.last_will)
        + opt_login_bytes(c.login).len()
}

/// Whether the property sections of a CONNECT packet fit in a remaining length.
pub open spec fn connect_sections_fit(c: ConnectView) -> bool {
    &&& (c.properties matches Some(p) ==> connect_properties_bytes(p).len()
        <= MAX_REMAINING_LENGTH)
    &&& (c.last_will matches Some(w) ==> last_will_section_fits(w))
}

/// A remaining length that fits leaves room for each property section, and is
/// then the length of the body that is written, whatever its flags byte.
pub proof fn lemma_connect_len(c: ConnectView, flags: u8)
    requires
        connect_len(c) <= MAX_REMAINING_LENGTH,
    ensures
        connect_sections_fit(c),
        connect_body(c, flags).len() == connect_len(c),
{
    lemma_mqtt_name_bytes();
    if let Some(p) = c.properties {
        lemma_remaining_length_size(connect_properties_bytes(p).len());
    }
    if let Some(w) = c.last_will {
        lemma_last_will_len(w);
    }
}

/// The connect flag for a clean session.
pub open spec fn clean_session_flag(c: ConnectView) -> u8 {
    if c.clean_session {
        0x02u8
    } else {
        0u8
    }
}

/// The connect flags `f` with those of the will and the login added.
pub open spec fn flags_with_payload(c: ConnectView, f: u8) -> u8 {
    let f1 = match c.last_will {
        Some(w) => f | last_will_flags(w),
        None => f,
    };
    match c.login {
        Some(l) => f1 | login_flags(l),
        None => f1,
    }
}

/// The connect flags of a CONNECT packet: clean session, will and login.
pub open spec fn connect_flags(c: ConnectView) -> u8 {
    flags_with_payload(c, clean_session_flag(c))
}

/// The bytes of a CONNECT packet: its fixed header (packet type 1 and the
/// remaining length), then its body with the connect flags in place.
pub open spec fn connect_packet_bytes(c: ConnectView) -> Seq<u8> {
    seq![0x10u8] + remaining_length_bytes(connect_len(c)) + connect_body(c, connect_flags(c))
}

/// Whether the size of a CONNECT packet fits in a `usize`.
pub open spec fn connect_size_ok(c: ConnectView) -> bool {
    connect_len(c) <= usize::MAX
}

impl Connect {
    /// Reads a CONNECT packet from `bytes`, a frame whose fixed header takes
    /// `fixed_header.fixed_len` bytes.
    #[verifier::rlimit(40)]
    pub fn assemble(fixed_header: FixedHeader, bytes: Bytes) -> (r: Result<Connect, Error>)
        requires
            !(parse_connect_frame(fixed_header.fixed_len as nat, bytes_contents(bytes)) is Exhausted),
        ensures
            match parse_connect_frame(fixed_header.fixed_len as nat, bytes_contents(bytes)) {
                Step::Done(v, rest) => r matches Ok(c) && c@ == v,
                Step::Fail(e) => r == Err::<Connect, Error>(e),
                Step::Exhausted => false,
            },
    {
        let mut bytes = bytes;
        let variable_header_index = fixed_header.fixed_len;
        bytes_advance(&mut bytes, variable_header_index);

        // Variable header
        let protocol_name = read_mqtt_string(&mut bytes)?;
        let ghost after_name = bytes_contents(bytes);
        let protocol_level = bytes_get_u8(&mut bytes);
        if !is_mqtt_name(&protocol_name) {
            return Err(Error::InvalidProtocol);
        }

        let protocol = match protocol_level {
            5 => Protocol::MQTT(5),
            num => return Err(Error::InvalidProtocolLevel(num)),
        };

        let ghost after_level = bytes_contents(bytes);
        let connect_flags = bytes_get_u8(&mut bytes);
        let clean_session = (connect_flags & 0b10) != 0;
        let keep_alive = bytes_get_u16(&mut bytes);
        assert(bytes_contents(bytes) =~= after_name.skip(2).skip(2));

        // Properties in variable header
        let properties = ConnectProperties::extract(&mut bytes)?;

        let client_id = read_mqtt_string(&mut bytes)?;
        let last_will = LastWill::extract(connect_flags, &mut bytes)?;
        let login = Login::extract(connect_flags, &mut bytes)?;

        let connect = Connect {
            protocol,
            keep_alive,
            properties,
            client_id,
            clean_session,
            last_will,
            login,
        };

        Ok(connect)
    }

    /// A CONNECT packet for client `id`: protocol level 4, keep alive 10 seconds,
    /// a clean session, and no properties, will or login.
    pub fn new<S: Into<String>>(id: S) -> (c: Connect)
        ensures
            c.protocol == Protocol::MQTT(4),
            c.keep_alive == 10,
            c.properties is None,
            c.clean_session,
            c.last_will is None,
            c.login is None,
            <S as IntoSpec<String>>::obeys_into_spec() ==> c.client_id == id.into_spec(),
    {
        Connect {
            protocol: Protocol::MQTT(4),
            keep_alive: 10,
            properties: None,
            client_id: id.into(),
            clean_session: true,
            last_will: None,
            login: None,
        }
    }

    /// Sets the login credentials and hands the packet back for more changes.
    pub fn set_login<S: Into<String>>(&mut self, u: S, p: S) -> (c: &mut Connect)
        ensures
            c.protocol == old(self).protocol,
            c.keep_alive == old(self).keep_alive,
            c.properties == old(self).properties,
            c.client_id == old(self).client_id,
            c.clean_session == old(self).clean_session,
            c.last_will == old(self).last_will,
            c.login is Some,
            <S as IntoSpec<String>>::obeys_into_spec() ==> c.login == Some(
                Login { username: u.into_spec(), password: p.into_spec() },
            ),
            *final(self) == *final(c),
    {
        let login = Login { username: u.into(), password: p.into() };

        self.login = Some(login);
        self
    }

    /// The remaining length of the packet: everything after the fixed header.
    pub fn len(&self) -> (n: usize)
        requires
            connect_size_ok(self@),
        ensures
            n == connect_len(self@),
    {
        proof {
            reveal_strlit("MQTT");
            assert("MQTT"@ =~= mqtt_name());
            lemma_mqtt_name_bytes();
        }
        let mut len = 2 + "MQTT".len()  // protocol name
         + 1  // protocol version
         + 1  // connect flags
         + 2;  // keep alive

        if let Some(properties) = &self.properties {
            let properties_len = properties.len();
            let properties_len_len = remaining_len_len(properties_len);
            len = len + properties_len_len + properties_len;
        }

        len = len + 2 + self.client_id.as_str().len();

        // last will len
        if let Some(last_will) = &self.last_will {
            len = len + last_will.len();
        }

        // username and password len
        if let Some(login) = &self.login {
            len = len + login.len();
        }

        len
    }

    /// Appends the whole packet, fixed header first, and returns its remaining
    /// length. The connect flags byte is written as a placeholder and filled in
    /// at the end, at index `flags_index` counted from the start of `buffer`.
    /// A remaining length above `MAX_REMAINING_LENGTH` is refused after the
    /// packet type byte has been written.
    #[verifier::rlimit(60)]
    pub fn write(&self, buffer: &mut BytesMut) -> (r: Result<usize, Error>)
        requires
            connect_size_ok(self@),
            bytes_mut_contents(*old(buffer)).len() + 5 + connect_len(self@) <= isize::MAX,
        ensures
            connect_len(self@) > MAX_REMAINING_LENGTH ==> r == Err::<usize, Error>(
                Error::PayloadTooLong,
            ) && bytes_mut_contents(*final(buffer)) == bytes_mut_contents(*old(buffer)).push(
                0x10,
            ),
            connect_len(self@) <= MAX_REMAINING_LENGTH ==> r == Ok::<usize, Error>(
                connect_len(self@) as usize,
            ) && bytes_mut_contents(*final(buffer)) == connect_written(
                bytes_mut_contents(*old(buffer)),
                self@,
            ),
    {
        let ghost c = self@;
        let len = self.len();
        bytes_mut_reserve(buffer, len);
        bytes_mut_put_u8(buffer, 0b0001_0000);
        proof {
            if len <= MAX_REMAINING_LENGTH {
                lemma_remaining_length_size(len as nat);
                lemma_connect_len(c, 0);
                lemma_connect_len(c, clean_session_flag(c));
            }
        }
        let count = write_remaining_length(buffer, len)?;
        let ghost after_header = bytes_mut_contents(*buffer);
        proof {
            reveal_strlit("MQTT");
            assert("MQTT"@ =~= mqtt_name());
            lemma_mqtt_name_bytes();
        }
        write_mqtt_string(buffer, "MQTT");
        bytes_mut_put_u8(buffer, 0x05);
        let flags_index = 1 + count + 2 + 4 + 1;

        let mut connect_flags: u8 = 0;
        if self.clean_session {
            connect_flags = connect_flags | 0x02;
        }
        assert(connect_flags == clean_session_flag(c)) by {
            assert(0u8 | 0x02u8 == 0x02u8) by (bit_vector);
        }

        bytes_mut_put_u8(buffer, connect_flags);
        bytes_mut_put_u16(buffer, self.keep_alive);
        assert(bytes_mut_contents(*buffer) =~= after_header + connect_header_bytes(
            c,
            clean_session_flag(c),
        ));
        let connect_flags = self.write_payload(buffer, connect_flags)?;
        assert(bytes_mut_contents(*buffer) =~= after_header + connect_body(
            c,
            clean_session_flag(c),
        ));

        // update connect flags
        bytes_mut_set(buffer, flags_index, connect_flags);
        Ok(len)
    }

    /// Appends the connection property section (if any), the client id, the will
    /// (if any) and the login (if any), and returns `connect_flags` with the flags
    /// of the will and the login added.
    #[verifier::rlimit(40)]
    fn write_payload(&self, buffer: &mut BytesMut, connect_flags: u8) -> (r: Result<u8, Error>)
        requires
            connect_size_ok(self@),
            connect_sections_fit(self@),
            bytes_mut_contents(*old(buffer)).len() + connect_payload_bytes(self@).len()
                <= isize::MAX,
        ensures
            r == Ok::<u8, Error>(flags_with_payload(self@, connect_flags)),
            bytes_mut_contents(*final(buffer)) == bytes_mut_contents(*old(buffer))
                + connect_payload_bytes(self@),
    {
        let ghost c = self@;
        let ghost start = bytes_mut_contents(*buffer);
        let ghost a = connect_properties_section(c.properties);
        let ghost b = mqtt_string_encoding(c.client_id);
        let ghost w = opt_last_will_bytes(c.last_will);
        let ghost l = opt_login_bytes(c.login);
        assert(connect_payload_bytes(c).len() == a.len() + b.len() + w.len() + l.len());
        let mut connect_flags = connect_flags;
        if let Some(properties) = &self.properties {
            proof {
                lemma_remaining_length_size(connect_properties_bytes(properties@).len());
            }
            properties.write(buffer)?;
        }
        assert(bytes_mut_contents(*buffer) =~= start + a);

        write_mqtt_string(buffer, self.client_id.as_str());
        assert(bytes_mut_contents(*buffer) =~= start + (a + b));

        if let Some(last_will) = &self.last_will {
            proof {
                if let Some(wp) = last_will@.properties {
                    lemma_remaining_length_size(will_properties_bytes(wp).len());
                }
                lemma_last_will_len(last_will@);
            }
            let will_flags = last_will.write(buffer)?;
            connect_flags = connect_flags | will_flags;
        }
        assert(bytes_mut_contents(*buffer) =~= start + (a + b + w));

        if let Some(login) = &self.login {
            let login_flags = login.write(buffer);
            connect_flags = connect_flags | login_flags;
        }
        assert(bytes_mut_contents(*buffer) =~= start + (a + b + w + l));
        Ok(connect_flags)
    }
}

/// What writing the CONNECT packet `c` leaves in a buffer that held `old`: the
/// packet appended with a placeholder for the connect flags, then the flags byte
/// set at `flags_index(c)`, counted from the start of the buffer.
pub open spec fn connect_written(old: Seq<u8>, c: ConnectView) -> Seq<u8> {
    (old + seq![0x10u8] + remaining_length_bytes(connect_len(c)) + connect_body(
        c,
        clean_session_flag(c),
    )).update(flags_index(c) as int, connect_flags(c))
}

/// Where the connect flags byte of a CONNECT packet stands, counted from the start
/// of the packet: after the packet type, the remaining length, the protocol name
/// and the level.
pub open spec fn flags_index(c: ConnectView) -> nat {
    1 + remaining_length_bytes(connect_len(c)).len() + 2 + 4 + 1
}

} // verus!
