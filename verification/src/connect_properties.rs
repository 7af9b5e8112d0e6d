//! The properties of a connection: the property section of a CONNECT packet's
//! variable header.
use crate::buf::{
    bytes_advance, bytes_as_slice, bytes_contents, bytes_get_u16, bytes_get_u32, bytes_get_u8,
    bytes_len, bytes_mut_contents,
};
use crate::codec::{
    length, property, property_number, read_mqtt_bytes, read_mqtt_string, remaining_length_bytes,
    write_remaining_length, Error, PropertyType, Step, MAX_REMAINING_LENGTH,
};
use crate::properties::{
    item_size, lemma_allowed_is_property, lemma_user_properties_bytes_step,
    lemma_user_properties_bytes_take, list_continues, opt_bytes_view, opt_data_field,
    opt_string_field, opt_u16_field, opt_u32_field, opt_u8_field, parse_property,
    parse_property_list, parse_property_section, parse_property_value, property_allowed,
    user_properties_bytes, write_data_property, write_string_property, write_u16_property,
    write_u32_property, write_u8_property, write_user_properties, item_bytes, PropertyItem,
    PropertyScope,
};
use bytes::{Bytes, BytesMut};
use vstd::prelude::*;
use vstd::utf8::encode_utf8;

verus! {

/// The properties of a connection, as values.
pub struct ConnectPropertiesView {
    pub session_expiry_interval: Option<u32>,
    pub receive_maximum: Option<u16>,
    pub max_packet_size: Option<u32>,
    pub topic_alias_max: Option<u16>,
    pub request_response_info: Option<u8>,
    pub request_problem_info: Option<u8>,
    pub user_properties: Seq<(Seq<char>, Seq<char>)>,
    pub authentication_method: Option<Seq<char>>,
    pub authentication_data: Option<Seq<u8>>,
}

/// Connection properties with nothing set.
pub open spec fn empty_connect_properties() -> ConnectPropertiesView {
    ConnectPropertiesView {
        session_expiry_interval: None,
        receive_maximum: None,
        max_packet_size: None,
        topic_alias_max: None,
        request_response_info: None,
        request_problem_info: None,
        user_properties: seq![],
        authentication_method: None,
        authentication_data: None,
    }
}

/// What one property does to a set of connection properties: a value replaces
/// any earlier one of its kind, and user properties pile up in order.
pub open spec fn apply_connect_property(
    p: ConnectPropertiesView,
    item: PropertyItem,
) -> ConnectPropertiesView {
    match item {
        PropertyItem::SessionExpiryInterval(v) => ConnectPropertiesView {
            session_expiry_interval: Some(v),
            ..p
        },
        PropertyItem::ReceiveMaximum(v) => ConnectPropertiesView { receive_maximum: Some(v), ..p },
        PropertyItem::MaximumPacketSize(v) => ConnectPropertiesView {
            max_packet_size: Some(v),
            ..p
        },
        PropertyItem::TopicAliasMaximum(v) => ConnectPropertiesView {
            topic_alias_max: Some(v),
            ..p
        },
        PropertyItem::RequestResponseInformation(v) => ConnectPropertiesView {
            request_response_info: Some(v),
            ..p
        },
        PropertyItem::RequestProblemInformation(v) => ConnectPropertiesView {
            request_problem_info: Some(v),
            ..p
        },
        PropertyItem::UserProperty(k, v) => ConnectPropertiesView {
            user_properties: p.user_properties.push((k, v)),
            ..p
        },
        PropertyItem::AuthenticationMethod(m) => ConnectPropertiesView {
            authentication_method: Some(m),
            ..p
        },
        PropertyItem::AuthenticationData(d) => ConnectPropertiesView {
            authentication_data: Some(d),
            ..p
        },
        _ => p,
    }
}

/// What applying the property items in order does to `acc`.
pub open spec fn connect_properties_fold(acc: ConnectPropertiesView, items: Seq<PropertyItem>) -> ConnectPropertiesView
    decreases items.len(),
{
    if items.len() == 0 {
        acc
    } else {
        apply_connect_property(connect_properties_fold(acc, items.drop_last()), items.last())
    }
}

/// The connect properties that a list of property items stands for.
pub open spec fn connect_properties_from(items: Seq<PropertyItem>) -> ConnectPropertiesView {
    connect_properties_fold(empty_connect_properties(), items)
}

/// Reads the connection property section off the front of `s`.
pub open spec fn parse_connect_properties(s: Seq<u8>) -> Step<Option<ConnectPropertiesView>> {
    match parse_property_section(s, PropertyScope::Connect) {
        Step::Done(Some(items), r) => Step::Done(Some(connect_properties_from(items)), r),
        Step::Done(None, r) => Step::Done(None, r),
        Step::Fail(e) => Step::Fail(e),
        Step::Exhausted => Step::Exhausted,
    }
}

/// The bytes of the six fixed-size connection properties, in the order they are
/// written.
pub open spec fn connect_scalar_bytes(p: ConnectPropertiesView) -> Seq<u8> {
    opt_u32_field(17, p.session_expiry_interval) + opt_u16_field(33, p.receive_maximum)
        + opt_u32_field(39, p.max_packet_size) + opt_u16_field(34, p.topic_alias_max)
        + opt_u8_field(25, p.request_response_info) + opt_u8_field(23, p.request_problem_info)
}

/// The bytes of the connection properties, without the length in front: the
/// fixed-size ones, the user properties, then the authentication method and data.
pub open spec fn connect_properties_bytes(p: ConnectPropertiesView) -> Seq<u8> {
    connect_scalar_bytes(p) + user_properties_bytes(p.user_properties) + opt_string_field(
        21,
        p.authentication_method,
    ) + opt_data_field(22, p.authentication_data)
}

/// Properties of a connection.
#[derive(Debug, Clone, PartialEq)]
pub struct ConnectProperties {
    /// Expiry interval property after loosing connection
    pub session_expiry_interval: Option<u32>,
    /// Maximum simultaneous packets
    pub receive_maximum: Option<u16>,
    /// Maximum packet size
    pub max_packet_size: Option<u32>,
    /// Maximum mapping integer for a topic
    pub topic_alias_max: Option<u16>,
    pub request_response_info: Option<u8>,
    pub request_problem_info: Option<u8>,
    /// List of user properties
    pub user_properties: Vec<(String, String)>,
    /// Method of authentication
    pub authentication_method: Option<String>,
    /// Authentication data
    pub authentication_data: Option<Bytes>,
}

impl View for ConnectProperties {
    type V = ConnectPropertiesView;

    open spec fn view(&self) -> ConnectPropertiesView {
        ConnectPropertiesView {
            session_expiry_interval: self.session_expiry_interval,
            receive_maximum: self.receive_maximum,
            max_packet_size: self.max_packet_size,
            topic_alias_max: self.topic_alias_max,
            request_response_info: self.request_response_info,
            request_problem_info: self.request_problem_info,
            user_properties: self.user_properties.deep_view(),
            authentication_method: self.authentication_method.deep_view(),
            authentication_data: opt_bytes_view(self.authentication_data),
        }
    }
}

/// The values of optional connection properties.
pub open spec fn opt_connect_properties_view(p: Option<ConnectProperties>) -> Option<
    ConnectPropertiesView,
> {
    match p {
        Some(x) => Some(x@),
        None => None,
    }
}

impl ConnectProperties {
    /// Connection properties with nothing set.
    pub fn _new() -> (p: ConnectProperties)
        ensures
            p@ == empty_connect_properties(),
    {
        let p = ConnectProperties {
            session_expiry_interval: None,
            receive_maximum: None,
            max_packet_size: None,
            topic_alias_max: None,
            request_response_info: None,
            request_problem_info: None,
            user_properties: Vec::new(),
            authentication_method: None,
            authentication_data: None,
        };
        assert(p@.user_properties =~= seq![]);
        p
    }

    /// Reads the connection property section off the front of `bytes`.
    #[verifier::rlimit(40)]
    pub fn extract(bytes: &mut Bytes) -> (r: Result<Option<ConnectProperties>, Error>)
        requires
            !(parse_connect_properties(bytes_contents(*old(bytes))) is Exhausted),
        ensures
            match parse_connect_properties(bytes_contents(*old(bytes))) {
                Step::Done(v, rest) => r matches Ok(o) && opt_connect_properties_view(o) == v
                    && bytes_contents(*final(bytes)) == rest,
                Step::Fail(e) => r == Err::<Option<ConnectProperties>, Error>(e),
                Step::Exhausted => false,
            },
    {
        let ghost s0 = bytes_contents(*bytes);
        let (properties_len_len, properties_len) = length(bytes_as_slice(bytes))?;
        bytes_advance(bytes, properties_len_len);
        if properties_len == 0 {
            return Ok(None);
        }
        let ghost s1 = bytes_contents(*bytes);
        let ghost total = parse_property_list(
            s1,
            PropertyScope::Connect,
            0,
            properties_len as nat,
        );
        let mut properties = ConnectProperties::_new();
        let ghost mut consumed: Seq<PropertyItem> = seq![];
        assert(consumed + seq![] =~= seq![]);
        let mut cursor: usize = 0;
        // read until cursor reaches property length. properties_len = 0 will skip this loop
        while cursor < properties_len
            invariant
                properties_len <= MAX_REMAINING_LENGTH,
                cursor <= MAX_REMAINING_LENGTH + 131077,
                s0 == bytes_contents(*old(bytes)),
                parse_connect_properties(s0) == match total {
                    Step::Done(items, r) => Step::Done(Some(connect_properties_from(items)), r),
                    Step::Fail(e) => Step::Fail(e),
                    Step::Exhausted => Step::<Option<ConnectPropertiesView>>::Exhausted,
                },
                !(total is Exhausted),
                properties@ == connect_properties_from(consumed),
                list_continues(
                    total,
                    consumed,
                    parse_property_list(
                        bytes_contents(*bytes),
                        PropertyScope::Connect,
                        cursor as nat,
                        properties_len as nat,
                    ),
                ),
            decreases (if cursor < properties_len {
                properties_len - cursor
            } else {
                0
            }),
        {
            let ghost before = bytes_contents(*bytes);
            let prop = bytes_get_u8(bytes);
            cursor = cursor + 1;
            let ptype = match property(prop) {
                Ok(p) => p,
                Err(e) => {
                    proof {
                        if property_allowed(PropertyScope::Connect, prop) {
                            lemma_allowed_is_property(PropertyScope::Connect, prop);
                        }
                    }
                    return Err(e);
                },
            };
            let value_len = read_connect_property(bytes, prop, ptype, &mut properties)?;
            cursor = cursor + value_len;
            proof {
                let item = parse_property(before, PropertyScope::Connect)->Done_0;
                let rest_items = parse_property_list(
                    bytes_contents(*bytes),
                    PropertyScope::Connect,
                    cursor as nat,
                    properties_len as nat,
                );
                assert(consumed.push(item).drop_last() =~= consumed);
                if let Step::Done(items, r) = rest_items {
                    assert(consumed + (seq![item] + items) =~= consumed.push(item) + items);
                }
                consumed = consumed.push(item);
            }
        }
        assert(consumed + seq![] =~= consumed);
        Ok(Some(properties))
    }

    /// How many bytes the properties take on the wire, without the length in front.
    #[verifier::rlimit(40)]
    pub fn len(&self) -> (n: usize)
        requires
            connect_properties_bytes(self@).len() <= usize::MAX,
        ensures
            n == connect_properties_bytes(self@).len(),
    {
        let ghost users = self@.user_properties;
        proof {
            lemma_user_properties_bytes_take(users, users.len() as int);
        }
        let mut len: usize = 0;

        if self.session_expiry_interval.is_some() {
            len = len + 1 + 4;
        }
        if self.receive_maximum.is_some() {
            len = len + 1 + 2;
        }
        if self.max_packet_size.is_some() {
            len = len + 1 + 4;
        }
        if self.topic_alias_max.is_some() {
            len = len + 1 + 2;
        }
        if self.request_response_info.is_some() {
            len = len + 1 + 1;
        }
        if self.request_problem_info.is_some() {
            len = len + 1 + 1;
        }
        let ghost head = opt_u32_field(17, self.session_expiry_interval) + opt_u16_field(
            33,
            self.receive_maximum,
        ) + opt_u32_field(39, self.max_packet_size) + opt_u16_field(34, self.topic_alias_max)
            + opt_u8_field(25, self.request_response_info) + opt_u8_field(
            23,
            self.request_problem_info,
        );
        assert(len == head.len());
        assert(users.take(0) =~= seq![]);
        assert(connect_properties_bytes(self@) =~= head + user_properties_bytes(users)
            + opt_string_field(21, self@.authentication_method) + opt_data_field(
            22,
            self@.authentication_data,
        ));
        let mut i: usize = 0;
        while i < self.user_properties.len()
            invariant
                i <= self.user_properties.len(),
                users == self@.user_properties,
                users.len() == self.user_properties.len(),
                connect_properties_bytes(self@).len() <= usize::MAX,
                connect_properties_bytes(self@) == head + user_properties_bytes(users)
                    + opt_string_field(21, self@.authentication_method) + opt_data_field(
                    22,
                    self@.authentication_data,
                ),
                len == head.len() + user_properties_bytes(users.take(i as int)).len(),
            decreases self.user_properties.len() - i,
        {
            proof {
                lemma_user_properties_bytes_step(users, i as int);
                lemma_user_properties_bytes_take(users, i + 1);
            }
            let key = &self.user_properties[i].0;
            let value = &self.user_properties[i].1;
            assert(item_bytes(PropertyItem::UserProperty(users[i as int].0, users[i as int].1)).len()
                == 1 + 2 + encode_utf8(key@).len() + 2 + encode_utf8(value@).len());
            len = len + 1 + 2 + key.as_str().len() + 2 + value.as_str().len();
            i = i + 1;
        }
        assert(users.take(users.len() as int) =~= users);
        if let Some(authentication_method) = &self.authentication_method {
            len = len + 1 + 2 + authentication_method.as_str().len();
        }
        if let Some(authentication_data) = &self.authentication_data {
            len = len + 1 + 2 + bytes_len(authentication_data);
        }
        len
    }

    /// Appends the property section: its length, then the properties in a fixed
    /// order. A section longer than a remaining length can say is refused before
    /// anything is written.
    pub fn write(&self, buffer: &mut BytesMut) -> (r: Result<(), Error>)
        requires
            connect_properties_bytes(self@).len() <= usize::MAX,
            connect_properties_bytes(self@).len() <= MAX_REMAINING_LENGTH ==> bytes_mut_contents(
                *old(buffer),
            ).len() + remaining_length_bytes(connect_properties_bytes(self@).len()).len()
                + connect_properties_bytes(self@).len() <= isize::MAX,
        ensures
            connect_properties_bytes(self@).len() > MAX_REMAINING_LENGTH ==> r == Err::<
                (),
                Error,
            >(Error::PayloadTooLong) && bytes_mut_contents(*final(buffer))
                == bytes_mut_contents(*old(buffer)),
            connect_properties_bytes(self@).len() <= MAX_REMAINING_LENGTH ==> r is Ok
                && bytes_mut_contents(*final(buffer)) == bytes_mut_contents(*old(buffer))
                + remaining_length_bytes(connect_properties_bytes(self@).len())
                + connect_properties_bytes(self@),
    {
        let len = self.len();
        write_remaining_length(buffer, len)?;
        let ghost start = bytes_mut_contents(*buffer);
        let ghost p = self@;
        self.write_scalars(buffer);
        write_user_properties(buffer, &self.user_properties);
        write_string_property(
            buffer,
            PropertyType::AuthenticationMethod,
            &self.authentication_method,
        );
        write_data_property(buffer, PropertyType::AuthenticationData, &self.authentication_data);
        assert(bytes_mut_contents(*buffer) =~= start + connect_properties_bytes(p));
        Ok(())
    }

    /// Appends the fixed-size properties that are set.
    #[verifier::rlimit(40)]
    fn write_scalars(&self, buffer: &mut BytesMut)
        requires
            bytes_mut_contents(*old(buffer)).len() + connect_scalar_bytes(self@).len()
                <= isize::MAX,
        ensures
            bytes_mut_contents(*final(buffer)) == bytes_mut_contents(*old(buffer))
                + connect_scalar_bytes(self@),
    {
        let ghost start = bytes_mut_contents(*buffer);
        let ghost p = self@;
        let ghost a = opt_u32_field(17, p.session_expiry_interval);
        let ghost b = opt_u16_field(33, p.receive_maximum);
        let ghost c = opt_u32_field(39, p.max_packet_size);
        let ghost d = opt_u16_field(34, p.topic_alias_max);
        let ghost e = opt_u8_field(25, p.request_response_info);
        let ghost f = opt_u8_field(23, p.request_problem_info);
        assert(connect_scalar_bytes(p).len() == a.len() + b.len() + c.len() + d.len() + e.len()
            + f.len());
        write_u32_property(buffer, PropertyType::SessionExpiryInterval, self.session_expiry_interval);
        write_u16_property(buffer, PropertyType::ReceiveMaximum, self.receive_maximum);
        assert(bytes_mut_contents(*buffer) =~= start + (a + b));
        write_u32_property(buffer, PropertyType::MaximumPacketSize, self.max_packet_size);
        assert(bytes_mut_contents(*buffer) =~= start + (a + b + c));
        write_u16_property(buffer, PropertyType::TopicAliasMaximum, self.topic_alias_max);
        assert(bytes_mut_contents(*buffer) =~= start + (a + b + c + d));
        write_u8_property(
            buffer,
            PropertyType::RequestResponseInformation,
            self.request_response_info,
        );
        assert(bytes_mut_contents(*buffer) =~= start + (a + b + c + d + e));
        write_u8_property(
            buffer,
            PropertyType::RequestProblemInformation,
            self.request_problem_info,
        );
        assert(bytes_mut_contents(*buffer) =~= start + (a + b + c + d + e + f));
        assert(bytes_mut_contents(*buffer) =~= start + connect_scalar_bytes(self@));
    }
}

/// Reads the value of the connection property `ptype`, whose identifier `prop` has
/// just been read, into `properties`, and returns how many bytes the value took.
fn read_connect_property(
    bytes: &mut Bytes,
    prop: u8,
    ptype: PropertyType,
    properties: &mut ConnectProperties,
) -> (r: Result<usize, Error>)
    requires
        property_number(ptype) == prop,
        !(parse_property_value(prop, bytes_contents(*old(bytes)), PropertyScope::Connect) is Exhausted),
    ensures
        match parse_property_value(prop, bytes_contents(*old(bytes)), PropertyScope::Connect) {
            Step::Done(item, rest) => r == Ok::<usize, Error>((item_size(item) - 1) as usize)
                && item_size(item) <= 131077 && final(properties)@ == apply_connect_property(
                old(properties)@,
                item,
            ) && bytes_contents(*final(bytes)) == rest,
            Step::Fail(e) => r == Err::<usize, Error>(e),
            Step::Exhausted => false,
        },
{
    match ptype {
        PropertyType::SessionExpiryInterval => {
            properties.session_expiry_interval = Some(bytes_get_u32(bytes));
            Ok(4)
        },
        PropertyType::ReceiveMaximum => {
            properties.receive_maximum = Some(bytes_get_u16(bytes));
            Ok(2)
        },
        PropertyType::MaximumPacketSize => {
            properties.max_packet_size = Some(bytes_get_u32(bytes));
            Ok(4)
        },
        PropertyType::TopicAliasMaximum => {
            properties.topic_alias_max = Some(bytes_get_u16(bytes));
            Ok(2)
        },
        PropertyType::RequestResponseInformation => {
            properties.request_response_info = Some(bytes_get_u8(bytes));
            Ok(1)
        },
        PropertyType::RequestProblemInformation => {
            properties.request_problem_info = Some(bytes_get_u8(bytes));
            Ok(1)
        },
        PropertyType::UserProperty => {
            let key = read_mqtt_string(bytes)?;
            let value = read_mqtt_string(bytes)?;
            let n = 2 + key.as_str().len() + 2 + value.as_str().len();
            let ghost users = properties.user_properties.deep_view();
            properties.user_properties.push((key, value));
            assert(properties.user_properties.deep_view() =~= users.push((key@, value@)));
            Ok(n)
        },
        PropertyType::AuthenticationMethod => {
            let method = read_mqtt_string(bytes)?;
            let n = 2 + method.as_str().len();
            properties.authentication_method = Some(method);
            Ok(n)
        },
        PropertyType::AuthenticationData => {
            let data = read_mqtt_bytes(bytes)?;
            let n = 2 + bytes_len(&data);
            properties.authentication_data = Some(data);
            Ok(n)
        },
        _ => Err(Error::InvalidPropertyType(prop)),
    }
}

} // verus!
