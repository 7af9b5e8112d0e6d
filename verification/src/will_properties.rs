//! The properties of a will message: the property section in front of the will
//! topic in a CONNECT packet's payload.
use crate::buf::{
    bytes_advance, bytes_as_slice, bytes_contents, bytes_get_u32, bytes_get_u8, bytes_len,
    bytes_mut_contents,
};
use crate::codec::{
    length, property, property_number, read_mqtt_bytes, read_mqtt_string, remaining_length_bytes,
    write_remaining_length, Error, PropertyType, Step, MAX_REMAINING_LENGTH,
};
use crate::properties::{
    item_bytes, item_size, lemma_allowed_is_property, lemma_user_properties_bytes_step,
    lemma_user_properties_bytes_take, list_continues, opt_bytes_view, opt_data_field,
    opt_string_field, opt_u32_field, opt_u8_field, parse_property, parse_property_list,
    parse_property_section, parse_property_value, property_allowed, user_properties_bytes,
    write_data_property, write_string_property, write_u32_property, write_u8_property,
    write_user_properties, PropertyItem, PropertyScope,
};
use bytes::{Bytes, BytesMut};
use vstd::prelude::*;
use vstd::utf8::encode_utf8;

verus! {

/// The properties of a will message, as values.
pub struct WillPropertiesView {
    pub delay_interval: Option<u32>,
    pub payload_format_indicator: Option<u8>,
    pub message_expiry_interval: Option<u32>,
    pub content_type: Option<Seq<char>>,
    pub response_topic: Option<Seq<char>>,
    pub correlation_data: Option<Seq<u8>>,
    pub user_properties: Seq<(Seq<char>, Seq<char>)>,
}

/// Will properties with nothing set.
pub open spec fn empty_will_properties() -> WillPropertiesView {
    WillPropertiesView {
        delay_interval: None,
        payload_format_indicator: None,
        message_expiry_interval: None,
        content_type: None,
        response_topic: None,
        correlation_data: None,
        user_properties: seq![],
    }
}

/// What one property does to a set of will properties.
pub open spec fn apply_will_property(p: WillPropertiesView, item: PropertyItem) -> WillPropertiesView {
    match item {
        PropertyItem::WillDelayInterval(v) => WillPropertiesView { delay_interval: Some(v), ..p },
        PropertyItem::PayloadFormatIndicator(v) => WillPropertiesView {
            payload_format_indicator: Some(v),
            ..p
        },
        PropertyItem::MessageExpiryInterval(v) => WillPropertiesView {
            message_expiry_interval: Some(v),
            ..p
        },
        PropertyItem::ContentType(t) => WillPropertiesView { content_type: Some(t), ..p },
        PropertyItem::ResponseTopic(t) => WillPropertiesView { response_topic: Some(t), ..p },
        PropertyItem::CorrelationData(d) => WillPropertiesView { correlation_data: Some(d), ..p },
        PropertyItem::UserProperty(k, v) => WillPropertiesView {
            user_properties: p.user_properties.push((k, v)),
            ..p
        },
        _ => p,
    }
}

/// What applying the property items in order does to `acc`.
pub open spec fn will_properties_fold(acc: WillPropertiesView, items: Seq<PropertyItem>) -> WillPropertiesView
    decreases items.len(),
{
    if items.len() == 0 {
        acc
    } else {
        apply_will_property(will_properties_fold(acc, items.drop_last()), items.last())
    }
}

/// The will properties that a list of property items stands for.
pub open spec fn will_properties_from(items: Seq<PropertyItem>) -> WillPropertiesView {
    will_properties_fold(empty_will_properties(), items)
}

/// Reads the will property section off the front of `s`.
pub open spec fn parse_will_properties(s: Seq<u8>) -> Step<Option<WillPropertiesView>> {
    match parse_property_section(s, PropertyScope::Will) {
        Step::Done(Some(items), r) => Step::Done(Some(will_properties_from(items)), r),
        Step::Done(None, r) => Step::Done(None, r),
        Step::Fail(e) => Step::Fail(e),
        Step::Exhausted => Step::Exhausted,
    }
}

/// The bytes of the will properties other than the user properties, in the order
/// they are written.
pub open spec fn will_scalar_bytes(p: WillPropertiesView) -> Seq<u8> {
    opt_u32_field(24, p.delay_interval) + opt_u8_field(1, p.payload_format_indicator)
        + opt_u32_field(2, p.message_expiry_interval) + opt_string_field(3, p.content_type)
        + opt_string_field(8, p.response_topic) + opt_data_field(9, p.correlation_data)
}

/// The bytes of the will properties, without the length in front: the single
/// ones, then the user properties.
pub open spec fn will_properties_bytes(p: WillPropertiesView) -> Seq<u8> {
    will_scalar_bytes(p) + user_properties_bytes(p.user_properties)
}

/// Properties of a will message.
#[derive(Debug, Clone, PartialEq)]
pub struct WillProperties {
    pub delay_interval: Option<u32>,
    pub payload_format_indicator: Option<u8>,
    pub message_expiry_interval: Option<u32>,
    pub content_type: Option<String>,
    pub response_topic: Option<String>,
    pub correlation_data: Option<Bytes>,
    pub user_properties: Vec<(String, String)>,
}

impl View for WillProperties {
    type V = WillPropertiesView;

    open spec fn view(&self) -> WillPropertiesView {
        WillPropertiesView {
            delay_interval: self.delay_interval,
            payload_format_indicator: self.payload_format_indicator,
            message_expiry_interval: self.message_expiry_interval,
            content_type: self.content_type.deep_view(),
            response_topic: self.response_topic.deep_view(),
            correlation_data: opt_bytes_view(self.correlation_data),
            user_properties: self.user_properties.deep_view(),
        }
    }
}

/// The values of optional will properties.
pub open spec fn opt_will_properties_view(p: Option<WillProperties>) -> Option<WillPropertiesView> {
    match p {
        Some(x) => Some(x@),
        None => None,
    }
}

impl WillProperties {
    /// Reads the will property section off the front of `bytes`.
    #[verifier::rlimit(40)]
    pub fn extract(bytes: &mut Bytes) -> (r: Result<Option<WillProperties>, Error>)
        requires
            !(parse_will_properties(bytes_contents(*old(bytes))) is Exhausted),
        ensures
            match parse_will_properties(bytes_contents(*old(bytes))) {
                Step::Done(v, rest) => r matches Ok(o) && opt_will_properties_view(o) == v
                    && bytes_contents(*final(bytes)) == rest,
                Step::Fail(e) => r == Err::<Option<WillProperties>, Error>(e),
                Step::Exhausted => false,
            },
    {
        let ghost s0 = bytes_contents(*bytes);
        let (properties_len_len, properties_len) = length(bytes_as_slice(bytes))?;
        bytes_advance(bytes, properties_len_len);
        if properties_len == 0 {
            return Ok(None);
        }
        let ghost s1 = bytes_contents(*bytes);
        let ghost total = parse_property_list(s1, PropertyScope::Will, 0, properties_len as nat);
        let mut properties = WillProperties {
            delay_interval: None,
            payload_format_indicator: None,
            message_expiry_interval: None,
            content_type: None,
            response_topic: None,
            correlation_data: None,
            user_properties: Vec::new(),
        };
        assert(properties@.user_properties =~= seq![]);
        let ghost mut consumed: Seq<PropertyItem> = seq![];
        assert(consumed + seq![] =~= seq![]);
        let mut cursor: usize = 0;
        // read until cursor reaches property length. properties_len = 0 will skip this loop
        while cursor < properties_len
            invariant
                properties_len <= MAX_REMAINING_LENGTH,
                cursor <= MAX_REMAINING_LENGTH + 131077,
                s0 == bytes_contents(*old(bytes)),
                parse_will_properties(s0) == match total {
                    Step::Done(items, r) => Step::Done(Some(will_properties_from(items)), r),
                    Step::Fail(e) => Step::Fail(e),
                    Step::Exhausted => Step::<Option<WillPropertiesView>>::Exhausted,
                },
                !(total is Exhausted),
                properties@ == will_properties_from(consumed),
                list_continues(
                    total,
                    consumed,
                    parse_property_list(
                        bytes_contents(*bytes),
                        PropertyScope::Will,
                        cursor as nat,
                        properties_len as nat,
                    ),
                ),
            decreases (if cursor < properties_len {
                properties_len - cursor
            } else {
                0
            }),
        {
            let ghost before = bytes_contents(*bytes);
            let prop = bytes_get_u8(bytes);
            cursor = cursor + 1;
            let ptype = match property(prop) {
                Ok(p) => p,
                Err(e) => {
                    proof {
                        if property_allowed(PropertyScope::Will, prop) {
                            lemma_allowed_is_property(PropertyScope::Will, prop);
                        }
                    }
                    return Err(e);
                },
            };
            let value_len = read_will_property(bytes, prop, ptype, &mut properties)?;
            cursor = cursor + value_len;
            proof {
                let item = parse_property(before, PropertyScope::Will)->Done_0;
                let rest_items = parse_property_list(
                    bytes_contents(*bytes),
                    PropertyScope::Will,
                    cursor as nat,
                    properties_len as nat,
                );
                assert(consumed.push(item).drop_last() =~= consumed);
                if let Step::Done(items, r) = rest_items {
                    assert(consumed + (seq![item] + items) =~= consumed.push(item) + items);
                }
                consumed = consumed.push(item);
            }
        }
        assert(consumed + seq![] =~= consumed);
        Ok(Some(properties))
    }

    /// How many bytes the properties take on the wire, without the length in front.
    #[verifier::rlimit(40)]
    pub fn len(&self) -> (n: usize)
        requires
            will_properties_bytes(self@).len() <= usize::MAX,
        ensures
            n == will_properties_bytes(self@).len(),
    {
        let ghost users = self@.user_properties;
        proof {
            lemma_user_properties_bytes_take(users, users.len() as int);
        }
        let mut len: usize = 0;

        if self.delay_interval.is_some() {
            len = len + 1 + 4;
        }
        if self.payload_format_indicator.is_some() {
            len = len + 1 + 1;
        }
        if self.message_expiry_interval.is_some() {
            len = len + 1 + 4;
        }
        if let Some(typ) = &self.content_type {
            len = len + 1 + 2 + typ.as_str().len();
        }
        if let Some(topic) = &self.response_topic {
            len = len + 1 + 2 + topic.as_str().len();
        }
        if let Some(data) = &self.correlation_data {
            len = len + 1 + 2 + bytes_len(data);
        }
        let ghost head = opt_u32_field(24, self@.delay_interval) + opt_u8_field(
            1,
            self@.payload_format_indicator,
        ) + opt_u32_field(2, self@.message_expiry_interval) + opt_string_field(
            3,
            self@.content_type,
        ) + opt_string_field(8, self@.response_topic) + opt_data_field(
            9,
            self@.correlation_data,
        );
        assert(len == head.len());
        assert(users.take(0) =~= seq![]);
        assert(will_properties_bytes(self@) =~= head + user_properties_bytes(users));
        let mut i: usize = 0;
        while i < self.user_properties.len()
            invariant
                i <= self.user_properties.len(),
                users == self@.user_properties,
                users.len() == self.user_properties.len(),
                will_properties_bytes(self@).len() <= usize::MAX,
                will_properties_bytes(self@) == head + user_properties_bytes(users),
                len == head.len() + user_properties_bytes(users.take(i as int)).len(),
            decreases self.user_properties.len() - i,
        {
            proof {
                lemma_user_properties_bytes_step(users, i as int);
                lemma_user_properties_bytes_take(users, i + 1);
            }
            let key = &self.user_properties[i].0;
            let value = &self.user_properties[i].1;
            assert(item_bytes(PropertyItem::UserProperty(users[i as int].0, users[i as int].1)).len()
                == 1 + 2 + encode_utf8(key@).len() + 2 + encode_utf8(value@).len());
            len = len + 1 + 2 + key.as_str().len() + 2 + value.as_str().len();
            i = i + 1;
        }
        assert(users.take(users.len() as int) =~= users);
        len
    }

    /// Appends the property section: its length, then the properties in a fixed
    /// order. A section longer than a remaining length can say is refused before
    /// anything is written.
    pub fn write(&self, buffer: &mut BytesMut) -> (r: Result<(), Error>)
        requires
            will_properties_bytes(self@).len() <= usize::MAX,
            will_properties_bytes(self@).len() <= MAX_REMAINING_LENGTH ==> bytes_mut_contents(
                *old(buffer),
            ).len() + remaining_length_bytes(will_properties_bytes(self@).len()).len()
                + will_properties_bytes(self@).len() <= isize::MAX,
        ensures
            will_properties_bytes(self@).len() > MAX_REMAINING_LENGTH ==> r == Err::<(), Error>(
                Error::PayloadTooLong,
            ) && bytes_mut_contents(*final(buffer)) == bytes_mut_contents(*old(buffer)),
            will_properties_bytes(self@).len() <= MAX_REMAINING_LENGTH ==> r is Ok
                && bytes_mut_contents(*final(buffer)) == bytes_mut_contents(*old(buffer))
                + remaining_length_bytes(will_properties_bytes(self@).len())
                + will_properties_bytes(self@),
    {
        let len = self.len();
        write_remaining_length(buffer, len)?;
        let ghost start = bytes_mut_contents(*buffer);
        let ghost p = self@;
        self.write_scalars(buffer);
        write_user_properties(buffer, &self.user_properties);
        assert(bytes_mut_contents(*buffer) =~= start + will_properties_bytes(p));
        Ok(())
    }

    /// Appends the properties other than the user properties that are set.
    #[verifier::rlimit(40)]
    fn write_scalars(&self, buffer: &mut BytesMut)
        requires
            bytes_mut_contents(*old(buffer)).len() + will_scalar_bytes(self@).len() <= isize::MAX,
        ensures
            bytes_mut_contents(*final(buffer)) == bytes_mut_contents(*old(buffer))
                + will_scalar_bytes(self@),
    {
        let ghost start = bytes_mut_contents(*buffer);
        let ghost p = self@;
        let ghost a = opt_u32_field(24, p.delay_interval);
        let ghost b = opt_u8_field(1, p.payload_format_indicator);
        let ghost c = opt_u32_field(2, p.message_expiry_interval);
        let ghost d = opt_string_field(3, p.content_type);
        let ghost e = opt_string_field(8, p.response_topic);
        let ghost f = opt_data_field(9, p.correlation_data);
        assert(will_scalar_bytes(p).len() == a.len() + b.len() + c.len() + d.len() + e.len()
            + f.len());
        write_u32_property(buffer, PropertyType::WillDelayInterval, self.delay_interval);
        write_u8_property(
            buffer,
            PropertyType::PayloadFormatIndicator,
            self.payload_format_indicator,
        );
        assert(bytes_mut_contents(*buffer) =~= start + (a + b));
        write_u32_property(
            buffer,
            PropertyType::MessageExpiryInterval,
            self.message_expiry_interval,
        );
        assert(bytes_mut_contents(*buffer) =~= start + (a + b + c));
        write_string_property(buffer, PropertyType::ContentType, &self.content_type);
        assert(bytes_mut_contents(*buffer) =~= start + (a + b + c + d));
        write_string_property(buffer, PropertyType::ResponseTopic, &self.response_topic);
        assert(bytes_mut_contents(*buffer) =~= start + (a + b + c + d + e));
        write_data_property(buffer, PropertyType::CorrelationData, &self.correlation_data);
        assert(bytes_mut_contents(*buffer) =~= start + (a + b + c + d + e + f));
        assert(bytes_mut_contents(*buffer) =~= start + will_scalar_bytes(self@));
    }
}

/// Reads the value of the will property `ptype`, whose identifier `prop` has just
/// been read, into `properties`, and returns how many bytes the value took.
fn read_will_property(
    bytes: &mut Bytes,
    prop: u8,
    ptype: PropertyType,
    properties: &mut WillProperties,
) -> (r: Result<usize, Error>)
    requires
        property_number(ptype) == prop,
        !(parse_property_value(prop, bytes_contents(*old(bytes)), PropertyScope::Will) is Exhausted),
    ensures
        match parse_property_value(prop, bytes_contents(*old(bytes)), PropertyScope::Will) {
            Step::Done(item, rest) => r == Ok::<usize, Error>((item_size(item) - 1) as usize)
                && item_size(item) <= 131077 && final(properties)@ == apply_will_property(
                old(properties)@,
                item,
            ) && bytes_contents(*final(bytes)) == rest,
            Step::Fail(e) => r == Err::<usize, Error>(e),
            Step::Exhausted => false,
        },
{
    match ptype {
        PropertyType::WillDelayInterval => {
            properties.delay_interval = Some(bytes_get_u32(bytes));
            Ok(4)
        },
        PropertyType::PayloadFormatIndicator => {
            properties.payload_format_indicator = Some(bytes_get_u8(bytes));
            Ok(1)
        },
        PropertyType::MessageExpiryInterval => {
            properties.message_expiry_interval = Some(bytes_get_u32(bytes));
            Ok(4)
        },
        PropertyType::ContentType => {
            let typ = read_mqtt_string(bytes)?;
            let n = 2 + typ.as_str().len();
            properties.content_type = Some(typ);
            Ok(n)
        },
        PropertyType::ResponseTopic => {
            let topic = read_mqtt_string(bytes)?;
            let n = 2 + topic.as_str().len();
            properties.response_topic = Some(topic);
            Ok(n)
        },
        PropertyType::CorrelationData => {
            let data = read_mqtt_bytes(bytes)?;
            let n = 2 + bytes_len(&data);
            properties.correlation_data = Some(data);
            Ok(n)
        },
        PropertyType::UserProperty => {
            let key = read_mqtt_string(bytes)?;
            let value = read_mqtt_string(bytes)?;
            let n = 2 + key.as_str().len() + 2 + value.as_str().len();
            let ghost users = properties.user_properties.deep_view();
            properties.user_properties.push((key, value));
            assert(properties.user_properties.deep_view() =~= users.push((key@, value@)));
            Ok(n)
        },
        _ => Err(Error::InvalidPropertyType(prop)),
    }
}

} // verus!
